//! Importing a vendor's KiCad package into one personal library: the command line, the
//! import plan, and the rewriting of footprint and 3D model references.
use vstd::prelude::*;
use crate::text::{
    is_ws, occurs_at, occurs_at_exec, trim_left, trim_left_index, chars_of, string_from,
    string_of_range, extend_chars, extend_str, contains_seq, contains_chars, lines, lines_of,
    starts_with, starts_with_chars, is_whitespace,
};
use crate::sexpr::{paren_group_end, matching_paren_index, lemma_group_end_after, slice_range};
use crate::extract::first_token;

verus! {

/// The first position at or after `i` where the non-empty `pat` occurs in `s`, as
/// `str::find` on the rest of `s` reports it.
pub open spec fn find_after(s: Seq<char>, i: int, pat: Seq<char>) -> Option<int>
    decreases s.len() - i,
{
    if i < 0 || i >= s.len() {
        None
    } else if occurs_at(s, i, pat) {
        Some(i)
    } else {
        find_after(s, i + 1, pat)
    }
}

proof fn lemma_find_after(s: Seq<char>, i: int, pat: Seq<char>)
    ensures
        find_after(s, i, pat) matches Some(j) ==> i <= j < s.len() && occurs_at(s, j, pat),
    decreases s.len() - i,
{
    if 0 <= i < s.len() && !occurs_at(s, i, pat) {
        lemma_find_after(s, i + 1, pat);
    }
}

/// Scans `cs` from `from` for `pat` (see `find_after`).
fn find_after_exec(cs: &[char], from: usize, pat: &[char]) -> (r: Option<usize>)
    requires
        from <= cs.len(),
    ensures
        match r {
            Some(j) => find_after(cs@, from as int, pat@) == Some(j as int),
            None => find_after(cs@, from as int, pat@) is None,
        },
{
    let mut i: usize = from;
    while i < cs.len()
        invariant
            from <= i <= cs.len(),
            find_after(cs@, from as int, pat@) == find_after(cs@, i as int, pat@),
        decreases cs.len() - i,
    {
        if occurs_at_exec(cs, i, pat) {
            return Some(i);
        }
        i = i + 1;
    }
    None
}

/// `(symbol `, the opening of a symbol block.
pub open spec fn symbol_open() -> Seq<char> {
    seq!['(', 's', 'y', 'm', 'b', 'o', 'l', ' ']
}

fn symbol_open_chars() -> (r: Vec<char>)
    ensures
        r@ == symbol_open(),
{
    let r = vec!['(', 's', 'y', 'm', 'b', 'o', 'l', ' '];
    assert(r@ == symbol_open());
    r
}

/// The symbol blocks of `s` from position `i` on: each starts at the next `(symbol ` and
/// runs to its matching parenthesis, and the search goes on after it, so that the symbols
/// nested in a block are part of that block. `None` when a block is never closed. (The
/// group always ends past `i`; the bound only makes the recursion visibly finite.)
pub open spec fn symbols_from(s: Seq<char>, i: int) -> Option<Seq<Seq<char>>>
    decreases s.len() - i,
{
    match find_after(s, i, symbol_open()) {
        None => Some(Seq::empty()),
        Some(st) => match paren_group_end(s, st) {
            None => None,
            Some(e) => if i < e <= s.len() {
                match symbols_from(s, e) {
                    Some(rest) => Some(seq![s.subrange(st, e)] + rest),
                    None => None,
                }
            } else {
                None
            },
        },
    }
}

/// The error for a symbol block that is never closed.
pub open spec fn unmatched_message() -> Seq<char> {
    "failed to parse KiCad symbol file: unmatched parenthesis"@
}

pub open spec fn prefixed_blocks(acc: Seq<Seq<char>>, r: Option<Seq<Seq<char>>>) -> Option<
    Seq<Seq<char>>,
> {
    match r {
        Some(rest) => Some(acc + rest),
        None => None,
    }
}

pub open spec fn string_views(v: Seq<String>) -> Seq<Seq<char>> {
    v.map_values(|s: String| s@)
}

/// The symbol blocks of a KiCad symbol file, in order (see `symbols_from`).
pub fn extract_top_level_symbols(content: &str) -> (r: Result<Vec<String>, String>)
    ensures
        match symbols_from(content@, 0) {
            Some(blocks) => r is Ok && string_views(r->Ok_0@) == blocks,
            None => r is Err && r->Err_0@ == unmatched_message(),
        },
{
    let cs = chars_of(content);
    let pat = symbol_open_chars();
    let mut out: Vec<String> = Vec::new();
    let mut i: usize = 0;
    assert(string_views(out@) + Seq::<Seq<char>>::empty() =~= Seq::<Seq<char>>::empty());
    loop
        invariant
            i <= cs.len(),
            cs@ == content@,
            pat@ == symbol_open(),
            prefixed_blocks(Seq::empty(), symbols_from(cs@, 0)) == prefixed_blocks(
                string_views(out@),
                symbols_from(cs@, i as int),
            ),
        decreases cs.len() - i,
    {
        proof {
            lemma_find_after(cs@, i as int, pat@);
        }
        let st = match find_after_exec(cs.as_slice(), i, pat.as_slice()) {
            Some(st) => st,
            None => {
                assert(string_views(out@) + Seq::<Seq<char>>::empty() =~= string_views(out@));
                assert(Seq::<Seq<char>>::empty() + symbols_from(cs@, 0)->Some_0 =~= symbols_from(
                    cs@,
                    0,
                )->Some_0);
                return Ok(out);
            },
        };
        assert(cs@[st as int] == '(') by {
            assert(cs@.subrange(st as int, st + 8)[0] == cs@[st as int]);
        }
        proof {
            lemma_group_end_after(cs@, st as int);
        }
        let end = match matching_paren_index(cs.as_slice(), st) {
            Some(end) => end,
            None => {
                proof {
                    let z = symbols_from(cs@, 0);
                    if z is Some {
                        assert(Seq::<Seq<char>>::empty() + z->Some_0 =~= z->Some_0);
                    }
                }
                return Err("failed to parse KiCad symbol file: unmatched parenthesis".to_owned());
            },
        };
        let ghost before = string_views(out@);
        let block = string_of_range(cs.as_slice(), st, end + 1);
        out.push(block);
        proof {
            assert(string_views(out@) =~= before.push(cs@.subrange(st as int, end + 1)));
            let rest = symbols_from(cs@, end + 1);
            if rest is Some {
                assert(before + (seq![cs@.subrange(st as int, end + 1)] + rest->Some_0) =~= string_views(
                    out@,
                ) + rest->Some_0);
            }
            let z = symbols_from(cs@, 0);
            if z is Some {
                assert(Seq::<Seq<char>>::empty() + z->Some_0 =~= z->Some_0);
            }
        }
        i = end + 1;
    }
}

/// `s` with every trailing `c` removed (`str::trim_end_matches` with one character).
pub open spec fn strip_trailing(s: Seq<char>, c: char) -> Seq<char>
    decreases s.len(),
{
    if s.len() > 0 && s.last() == c {
        strip_trailing(s.drop_last(), c)
    } else {
        s
    }
}

/// `s` with every leading `c` removed (`str::trim_start_matches` with one character).
pub open spec fn strip_leading(s: Seq<char>, c: char) -> Seq<char>
    decreases s.len(),
{
    if s.len() > 0 && s[0] == c {
        strip_leading(s.drop_first(), c)
    } else {
        s
    }
}

/// The first whitespace-separated word of `s` (`split_whitespace().next()`).
pub open spec fn first_word(s: Seq<char>) -> Option<Seq<char>> {
    let t = trim_left(s);
    if t.len() == 0 {
        None
    } else {
        Some(first_token(t))
    }
}

/// A name written as a quoted string or as a bare word: the text up to the closing quote,
/// or the first word without its trailing `)`.
pub open spec fn quoted_or_atom(input: Seq<char>) -> Option<Seq<char>> {
    let t = trim_left(input);
    if t.len() > 0 && t[0] == '"' {
        match find_after(t.skip(1), 0, seq!['"']) {
            Some(e) => Some(t.skip(1).take(e)),
            None => None,
        }
    } else {
        match first_word(t) {
            Some(w) => Some(strip_trailing(w, ')')),
            None => None,
        }
    }
}

/// The name of a symbol block: what follows `(symbol `.
pub open spec fn symbol_name(block: Seq<char>) -> Option<Seq<char>> {
    if starts_with(block, symbol_open()) {
        quoted_or_atom(block.skip(8))
    } else {
        None
    }
}

/// The characters of `cs[from..]` up to the first whitespace.
fn token_at(cs: &[char], from: usize) -> (r: Vec<char>)
    requires
        from <= cs.len(),
    ensures
        r@ == first_token(cs@.skip(from as int)),
{
    let mut e: usize = from;
    let ghost t = cs@.skip(from as int);
    assert(t.skip(0) =~= t);
    assert(t.take(0) =~= Seq::<char>::empty());
    while e < cs.len() && !is_whitespace(cs[e])
        invariant
            from <= e <= cs.len(),
            t == cs@.skip(from as int),
            first_token(t) == t.take(e - from) + first_token(t.skip(e - from)),
        decreases cs.len() - e,
    {
        assert(t.skip(e - from).skip(1) =~= t.skip(e + 1 - from));
        assert(t.take(e + 1 - from) =~= t.take(e - from).push(t[e - from]));
        e = e + 1;
    }
    proof {
        if e < cs.len() {
            assert(t.skip(e - from)[0] == cs@[e as int]);
        } else {
            assert(t.skip(e - from).len() == 0);
        }
    }
    assert(first_token(t) =~= t.take(e - from));
    let r = slice_range(cs, from, e);
    assert(r@ =~= t.take(e - from));
    r
}

/// `cs` without its trailing `c`s.
fn strip_trailing_chars(cs: &[char], c: char) -> (r: Vec<char>)
    ensures
        r@ == strip_trailing(cs@, c),
{
    let mut e: usize = cs.len();
    assert(cs@.take(cs.len() as int) =~= cs@);
    while e > 0 && cs[e - 1] == c
        invariant
            e <= cs.len(),
            strip_trailing(cs@, c) == strip_trailing(cs@.take(e as int), c),
        decreases e,
    {
        assert(cs@.take(e as int).drop_last() =~= cs@.take(e - 1));
        e = e - 1;
    }
    let r = slice_range(cs, 0, e);
    assert(r@ =~= cs@.take(e as int));
    r
}

/// Reads a quoted or bare name (see `quoted_or_atom`).
pub fn parse_quoted_or_atom(input: &str) -> (r: Option<String>)
    ensures
        match r {
            Some(v) => quoted_or_atom(input@) == Some(v@),
            None => quoted_or_atom(input@) is None,
        },
{
    let cs = chars_of(input);
    let a = trim_left_index(cs.as_slice());
    let ghost t = trim_left(input@);
    assert(t =~= cs@.skip(a as int));
    if a < cs.len() && cs[a] == '"' {
        let q = vec!['"'];
        let rest = slice_range(cs.as_slice(), a + 1, cs.len());
        assert(rest@ =~= t.skip(1));
        assert(q@ =~= seq!['"']);
        match find_after_exec(rest.as_slice(), 0, q.as_slice()) {
            Some(e) => {
                proof {
                    lemma_find_after(rest@, 0, q@);
                }
                let v = string_of_range(rest.as_slice(), 0, e);
                assert(v@ =~= t.skip(1).take(e as int));
                Some(v)
            },
            None => None,
        }
    } else if a == cs.len() {
        assert(trim_left(t) == t) by {
            assert(t.len() == 0);
        }
        None
    } else {
        proof {
            lemma_trim_left_idem(input@);
        }
        let w = token_at(cs.as_slice(), a);
        let s = strip_trailing_chars(w.as_slice(), ')');
        Some(string_from(s.as_slice()))
    }
}

proof fn lemma_trim_left_idem(s: Seq<char>)
    ensures
        trim_left(trim_left(s)) == trim_left(s),
    decreases s.len(),
{
    if s.len() > 0 && is_ws(s[0]) {
        lemma_trim_left_idem(s.drop_first());
    }
}

/// The name of a symbol block (see `symbol_name`).
pub fn parse_symbol_name(symbol: &str) -> (r: Option<String>)
    ensures
        match r {
            Some(v) => symbol_name(symbol@) == Some(v@),
            None => symbol_name(symbol@) is None,
        },
{
    let cs = chars_of(symbol);
    let pat = symbol_open_chars();
    if !starts_with_chars(cs.as_slice(), pat.as_slice()) {
        return None;
    }
    let rest = string_of_range(cs.as_slice(), 8, cs.len());
    assert(rest@ =~= symbol@.skip(8));
    parse_quoted_or_atom(rest.as_str())
}


/// Each text of `ls` followed by a newline, as a loop that pushes a line and then `'\n'`
/// writes them.
pub open spec fn joined_lines(ls: Seq<Seq<char>>) -> Seq<char>
    decreases ls.len(),
{
    if ls.len() == 0 {
        Seq::empty()
    } else {
        joined_lines(ls.drop_last()) + ls.last().push('\n')
    }
}

/// `s` with each occurrence of the non-empty `from` replaced by `to`, scanning from the
/// left without overlaps (`str::replace`).
pub open spec fn replace_all(s: Seq<char>, from: Seq<char>, to: Seq<char>) -> Seq<char>
    decreases s.len(),
{
    if s.len() == 0 || from.len() == 0 {
        s
    } else if starts_with(s, from) {
        to + replace_all(s.skip(from.len() as int), from, to)
    } else {
        seq![s[0]] + replace_all(s.skip(1), from, to)
    }
}

fn replace_all_chars(cs: &[char], from: &[char], to: &[char]) -> (r: Vec<char>)
    requires
        from.len() > 0,
    ensures
        r@ == replace_all(cs@, from@, to@),
{
    let mut out: Vec<char> = Vec::new();
    let mut i: usize = 0;
    assert(cs@.skip(0) =~= cs@);
    while i < cs.len()
        invariant
            i <= cs.len(),
            from@.len() > 0,
            replace_all(cs@, from@, to@) == out@ + replace_all(cs@.skip(i as int), from@, to@),
        decreases cs.len() - i,
    {
        let ghost t = cs@.skip(i as int);
        assert(occurs_at(cs@, i as int, from@) == starts_with(t, from@)) by {
            if i + from@.len() <= cs@.len() {
                assert(t.subrange(0, from@.len() as int) =~= cs@.subrange(
                    i as int,
                    i + from@.len(),
                ));
            }
        }
        if occurs_at_exec(cs, i, from) {
            let ghost before = out@;
            extend_chars(&mut out, to);
            assert(t.skip(from@.len() as int) =~= cs@.skip(i + from@.len()));
            assert(before + (to@ + replace_all(t.skip(from@.len() as int), from@, to@)) =~= out@
                + replace_all(cs@.skip(i + from@.len()), from@, to@));
            i = i + from.len();
        } else {
            let ghost before = out@;
            out.push(cs[i]);
            assert(t.skip(1) =~= cs@.skip(i + 1));
            assert(before + (seq![t[0]] + replace_all(t.skip(1), from@, to@)) =~= out@ + replace_all(
                cs@.skip(i + 1),
                from@,
                to@,
            ));
            i = i + 1;
        }
    }
    assert(out@ + replace_all(cs@.skip(i as int), from@, to@) =~= out@);
    out
}

/// `"` + `s` + `"`, without escaping.
pub open spec fn in_quotes(s: Seq<char>) -> Seq<char> {
    seq!['"'] + s + seq!['"']
}

/// `(property "Footprint"`, the start of a symbol's footprint property.
pub open spec fn footprint_property_marker() -> Seq<char> {
    seq![
        '(', 'p', 'r', 'o', 'p', 'e', 'r', 't', 'y', ' ', '"', 'F', 'o', 'o', 't', 'p', 'r', 'i', 'n',
        't', '"',
    ]
}

fn footprint_property_marker_chars() -> (r: Vec<char>)
    ensures
        r@ == footprint_property_marker(),
{
    let r = vec![
        '(', 'p', 'r', 'o', 'p', 'e', 'r', 't', 'y', ' ', '"', 'F', 'o', 'o', 't', 'p', 'r', 'i', 'n',
        't', '"',
    ];
    assert(r@ == footprint_property_marker());
    r
}

/// The first of `names`, in their order, whose quoted form occurs in `line`, with every
/// occurrence of that quoted name prefixed by `nickname:`; `line` when none occurs.
pub open spec fn requalified(line: Seq<char>, nickname: Seq<char>, names: Seq<Seq<char>>) -> Seq<char>
    decreases names.len(),
{
    if names.len() == 0 {
        line
    } else if contains_seq(line, in_quotes(names[0])) {
        replace_all(line, in_quotes(names[0]), in_quotes(nickname.push(':') + names[0]))
    } else {
        requalified(line, nickname, names.drop_first())
    }
}

/// A line of a symbol with its footprint property pointed into the library `nickname`.
pub open spec fn footprint_line(line: Seq<char>, nickname: Seq<char>, names: Seq<Seq<char>>) -> Seq<
    char,
> {
    if contains_seq(line, footprint_property_marker()) {
        requalified(line, nickname, names)
    } else {
        line
    }
}

/// A symbol block with each footprint property qualified by the library nickname.
pub open spec fn rewritten_symbol(symbol: Seq<char>, nickname: Seq<char>, names: Seq<Seq<char>>) -> Seq<
    char,
> {
    joined_lines(lines(symbol).map_values(|l: Seq<char>| footprint_line(l, nickname, names)))
}

fn quoted_chars(s: &[char]) -> (r: Vec<char>)
    ensures
        r@ == in_quotes(s@),
{
    let mut r: Vec<char> = Vec::new();
    r.push('"');
    extend_chars(&mut r, s);
    r.push('"');
    r
}

fn requalify_line(line: &[char], nickname: &[char], names: &[String]) -> (r: Vec<char>)
    ensures
        r@ == requalified(line@, nickname@, string_views(names@)),
{
    let ghost nv = string_views(names@);
    let mut k: usize = 0;
    assert(nv.skip(0) =~= nv);
    while k < names.len()
        invariant
            k <= names.len(),
            nv == string_views(names@),
            requalified(line@, nickname@, nv) == requalified(line@, nickname@, nv.skip(k as int)),
        decreases names.len() - k,
    {
        let name = chars_of(names[k].as_str());
        let bare = quoted_chars(name.as_slice());
        assert(nv.skip(k as int)[0] == name@);
        assert(nv.skip(k as int).drop_first() =~= nv.skip(k + 1));
        if contains_chars(line, bare.as_slice()) {
            let mut full: Vec<char> = Vec::new();
            extend_chars(&mut full, nickname);
            full.push(':');
            extend_chars(&mut full, name.as_slice());
            let prefixed = quoted_chars(full.as_slice());
            return replace_all_chars(line, bare.as_slice(), prefixed.as_slice());
        }
        k = k + 1;
    }
    assert(nv.skip(k as int).len() == 0);
    let mut r: Vec<char> = Vec::new();
    extend_chars(&mut r, line);
    r
}

/// Points the footprint properties of a symbol block into the library `nickname`: in each
/// line that holds `(property "Footprint"`, the first of `footprint_names` whose quoted
/// form occurs is prefixed by `nickname:`. Every line of the result ends with a newline.
pub fn rewrite_symbol_footprints(symbol: &str, nickname: &str, footprint_names: &[String]) -> (r:
    String)
    ensures
        r@ == rewritten_symbol(symbol@, nickname@, string_views(footprint_names@)),
{
    let cs = chars_of(symbol);
    let nick = chars_of(nickname);
    let marker = footprint_property_marker_chars();
    let ls = lines_of(cs.as_slice());
    let ghost lv = lines(symbol@);
    let ghost nv = string_views(footprint_names@);
    let ghost mapped = lv.map_values(|l: Seq<char>| footprint_line(l, nickname@, nv));
    let mut out: Vec<char> = Vec::new();
    let mut k: usize = 0;
    while k < ls.len()
        invariant
            k <= ls@.len(),
            ls@.len() == lv.len(),
            forall|j: int| 0 <= j < ls@.len() ==> (#[trigger] ls@[j])@ == lv[j],
            nick@ == nickname@,
            marker@ == footprint_property_marker(),
            nv == string_views(footprint_names@),
            mapped == lv.map_values(|l: Seq<char>| footprint_line(l, nickname@, nv)),
            out@ == joined_lines(mapped.take(k as int)),
        decreases ls.len() - k,
    {
        let line = ls[k].as_slice();
        let ghost before = out@;
        if contains_chars(line, marker.as_slice()) {
            let next = requalify_line(line, nick.as_slice(), footprint_names);
            extend_chars(&mut out, next.as_slice());
        } else {
            extend_chars(&mut out, line);
        }
        out.push('\n');
        assert(mapped.take(k + 1).drop_last() =~= mapped.take(k as int));
        assert(out@ =~= before + mapped[k as int].push('\n'));
        k = k + 1;
    }
    assert(mapped.take(ls.len() as int) =~= mapped);
    string_from(out.as_slice())
}

/// The position of the last `c` in `s`.
pub open spec fn last_index_of(s: Seq<char>, c: char) -> Option<int>
    decreases s.len(),
{
    if s.len() == 0 {
        None
    } else if s.last() == c {
        Some(s.len() - 1)
    } else {
        last_index_of(s.drop_last(), c)
    }
}

/// The library text with `symbols` added before its final `)`: the text before that `)`
/// without trailing whitespace, a newline, each symbol without trailing whitespace and a
/// newline, and `)` with a newline. `None` when the text has no `)`.
pub open spec fn appended_library(existing: Seq<char>, symbols: Seq<Seq<char>>) -> Option<Seq<char>> {
    match last_index_of(existing, ')') {
        None => None,
        Some(k) => Some(
            crate::text::trim_right(existing.take(k)).push('\n') + joined_lines(
                symbols.map_values(|s: Seq<char>| crate::text::trim_right(s)),
            ) + seq![')', '\n'],
        ),
    }
}

pub open spec fn not_a_library_message() -> Seq<char> {
    "target symbol library is not a KiCad symbol library"@
}

/// Appends the characters of `cs[..end]` without trailing whitespace.
fn extend_trimmed_right(out: &mut Vec<char>, cs: &[char], end: usize)
    requires
        end <= cs.len(),
    ensures
        final(out)@ == old(out)@ + crate::text::trim_right(cs@.take(end as int)),
{
    let head = slice_range(cs, 0, end);
    let e = crate::text::trim_right_index(head.as_slice(), 0);
    assert(head@.subrange(0, head@.len() as int) =~= cs@.take(end as int));
    let kept = slice_range(head.as_slice(), 0, e);
    assert(kept@ =~= head@.subrange(0, e as int));
    extend_chars(out, kept.as_slice());
}

/// The position of the last `c` in `cs`.
fn last_index_exec(cs: &[char], c: char) -> (r: Option<usize>)
    ensures
        match r {
            Some(k) => last_index_of(cs@, c) == Some(k as int) && k < cs.len(),
            None => last_index_of(cs@, c) is None,
        },
{
    let mut k: usize = cs.len();
    assert(cs@.take(cs.len() as int) =~= cs@);
    while k > 0 && cs[k - 1] != c
        invariant
            k <= cs.len(),
            last_index_of(cs@, c) == last_index_of(cs@.take(k as int), c),
        decreases k,
    {
        assert(cs@.take(k as int).drop_last() =~= cs@.take(k - 1));
        k = k - 1;
    }
    if k == 0 {
        None
    } else {
        assert(cs@.take(k as int).last() == c);
        Some(k - 1)
    }
}

pub open spec fn trimmed_views(symbols: Seq<String>) -> Seq<Seq<char>> {
    string_views(symbols).map_values(|s: Seq<char>| crate::text::trim_right(s))
}

/// Appends each symbol without trailing whitespace, each followed by a newline.
fn extend_symbols(out: &mut Vec<char>, symbols: &[String])
    ensures
        final(out)@ == old(out)@ + joined_lines(trimmed_views(symbols@)),
{
    let ghost trimmed = trimmed_views(symbols@);
    let ghost head = out@;
    let mut j: usize = 0;
    while j < symbols.len()
        invariant
            j <= symbols.len(),
            trimmed == trimmed_views(symbols@),
            out@ == head + joined_lines(trimmed.take(j as int)),
        decreases symbols.len() - j,
    {
        let sc = chars_of(symbols[j].as_str());
        let ghost before = out@;
        extend_trimmed_right(out, sc.as_slice(), sc.len());
        assert(sc@.take(sc@.len() as int) =~= sc@);
        out.push('\n');
        assert(trimmed.take(j + 1).drop_last() =~= trimmed.take(j as int));
        assert(out@ =~= head + joined_lines(trimmed.take(j + 1)));
        j = j + 1;
    }
    assert(trimmed.take(symbols.len() as int) =~= trimmed);
}

/// Adds symbol blocks at the end of a symbol library (see `appended_library`).
pub fn append_symbols(existing: &str, symbols: &[String]) -> (r: Result<String, String>)
    ensures
        match appended_library(existing@, string_views(symbols@)) {
            Some(t) => r is Ok && r->Ok_0@ == t,
            None => r is Err && r->Err_0@ == not_a_library_message(),
        },
{
    let cs = chars_of(existing);
    let insert_at = match last_index_exec(cs.as_slice(), ')') {
        Some(k) => k,
        None => return Err("target symbol library is not a KiCad symbol library".to_owned()),
    };
    let mut out: Vec<char> = Vec::new();
    extend_trimmed_right(&mut out, cs.as_slice(), insert_at);
    out.push('\n');
    extend_symbols(&mut out, symbols);
    out.push(')');
    out.push('\n');
    assert(out@ =~= appended_library(existing@, string_views(symbols@))->Some_0);
    Ok(string_from(out.as_slice()))
}

/// Where a footprint's 3D model reference points.
#[derive(Clone, Copy, Debug, PartialEq, Eq, Structural)]
pub enum ModelPathMode {
    /// The model's absolute path in the library's model directory.
    Absolute,
    /// A path under `${KIPRJMOD}`.
    Kiprjmod,
}

/// What the command line asked for.
#[derive(Clone, Debug)]
pub struct Config {
    pub source: String,
    pub library_root: String,
    pub nickname: String,
    pub model_path_mode: ModelPathMode,
    pub dry_run: bool,
}

/// The files to import and where they go.
#[derive(Clone, Debug)]
pub struct ImportPlan {
    pub symbol_files: Vec<String>,
    pub footprint_files: Vec<String>,
    pub model_files: Vec<String>,
    pub symbol_library: String,
    pub footprint_dir: String,
    pub model_dir: String,
}

/// `(model `, the start of a footprint's 3D model reference.
pub open spec fn model_open() -> Seq<char> {
    seq!['(', 'm', 'o', 'd', 'e', 'l', ' ']
}

fn model_open_chars() -> (r: Vec<char>)
    ensures
        r@ == model_open(),
{
    let r = vec!['(', 'm', 'o', 'd', 'e', 'l', ' '];
    assert(r@ == model_open());
    r
}

/// A KiCad string literal for `value`: quoted, with backslashes and quotes escaped.
pub open spec fn kicad_quoted(value: Seq<char>) -> Seq<char> {
    in_quotes(crate::sexpr::escape_quotes(value))
}

/// Quotes a value as a KiCad string (see `kicad_quoted`).
pub fn quote_kicad_string(value: &str) -> (r: String)
    ensures
        r@ == kicad_quoted(value@),
{
    let cs = chars_of(value);
    let e = crate::sexpr::escape_quote_chars(cs.as_slice());
    let q = quoted_chars(e.as_slice());
    string_from(q.as_slice())
}

/// The reference written for model `name`.
pub open spec fn model_ref(mode: ModelPathMode, nickname: Seq<char>, model_dir: Seq<char>, name: Seq<
    char,
>) -> Seq<char> {
    match mode {
        ModelPathMode::Absolute => crate::paths::join(model_dir, name),
        ModelPathMode::Kiprjmod => "${KIPRJMOD}/"@ + nickname + ".3dshapes/"@ + name,
    }
}

/// The reference written for a model of the plan (see `model_ref`).
pub fn model_reference(config: &Config, plan: &ImportPlan, model_name: &str) -> (r: String)
    ensures
        r@ == model_ref(config.model_path_mode, config.nickname@, plan.model_dir@, model_name@),
{
    match config.model_path_mode {
        ModelPathMode::Absolute => crate::paths::join_path(plan.model_dir.as_str(), model_name),
        ModelPathMode::Kiprjmod => {
            let mut v: Vec<char> = Vec::new();
            extend_str(&mut v, "${KIPRJMOD}/");
            extend_str(&mut v, config.nickname.as_str());
            extend_str(&mut v, ".3dshapes/");
            extend_str(&mut v, model_name);
            string_from(v.as_slice())
        },
    }
}

/// The model named in the rest of a `(model ` line, when it is one of `names`: the first
/// word, without surrounding quotes, reduced to its file name.
pub open spec fn model_name_in(rest: Seq<char>, names: Seq<Seq<char>>) -> Option<Seq<char>> {
    match first_word(rest) {
        None => None,
        Some(w) => match crate::paths::file_name(strip_trailing(strip_leading(w, '"'), '"')) {
            None => None,
            Some(b) => if names.contains(b) {
                Some(b)
            } else {
                None
            },
        },
    }
}

/// A footprint line with its `(model ` reference pointed at the library's copy of a known
/// model: the line's indentation, `(model ` and the quoted reference; other lines as they
/// are.
pub open spec fn model_line(line: Seq<char>, mode: ModelPathMode, nickname: Seq<char>, model_dir: Seq<
    char,
>, names: Seq<Seq<char>>) -> Seq<char> {
    let t = trim_left(line);
    if starts_with(t, model_open()) {
        match model_name_in(t.skip(7), names) {
            Some(n) => line.take(line.len() - t.len()) + model_open() + kicad_quoted(
                model_ref(mode, nickname, model_dir, n),
            ),
            None => line,
        }
    } else {
        line
    }
}

/// A footprint's text with its model references rewritten, each line ending in a newline.
pub open spec fn rewritten_footprint(content: Seq<char>, mode: ModelPathMode, nickname: Seq<char>, model_dir: Seq<
    char,
>, names: Seq<Seq<char>>) -> Seq<char> {
    joined_lines(lines(content).map_values(|l: Seq<char>| model_line(l, mode, nickname, model_dir, names)))
}

fn strip_leading_chars(cs: &[char], c: char) -> (r: Vec<char>)
    ensures
        r@ == strip_leading(cs@, c),
{
    let mut a: usize = 0;
    assert(cs@.skip(0) =~= cs@);
    while a < cs.len() && cs[a] == c
        invariant
            a <= cs.len(),
            strip_leading(cs@, c) == strip_leading(cs@.skip(a as int), c),
        decreases cs.len() - a,
    {
        assert(cs@.skip(a as int).drop_first() =~= cs@.skip(a + 1));
        a = a + 1;
    }
    let r = slice_range(cs, a, cs.len());
    assert(r@ =~= cs@.skip(a as int));
    r
}

fn contains_name(names: &[String], name: &[char]) -> (r: bool)
    ensures
        r == string_views(names@).contains(name@),
{
    let ghost nv = string_views(names@);
    let mut k: usize = 0;
    while k < names.len()
        invariant
            k <= names.len(),
            nv == string_views(names@),
            forall|j: int| 0 <= j < k ==> nv[j] != name@,
        decreases names.len() - k,
    {
        let c = chars_of(names[k].as_str());
        if crate::text::chars_eq(c.as_slice(), name) {
            assert(nv[k as int] == name@);
            return true;
        }
        k = k + 1;
    }
    false
}

/// The first word of `cs[from..]` after leading whitespace (see `first_word`).
fn first_word_at(cs: &[char], from: usize) -> (r: Option<Vec<char>>)
    requires
        from <= cs.len(),
    ensures
        match r {
            Some(w) => first_word(cs@.skip(from as int)) == Some(w@),
            None => first_word(cs@.skip(from as int)) is None,
        },
{
    let rest = slice_range(cs, from, cs.len());
    assert(rest@ =~= cs@.skip(from as int));
    let a = trim_left_index(rest.as_slice());
    if a == rest.len() {
        None
    } else {
        assert(rest@.skip(a as int) =~= rest@.subrange(a as int, rest@.len() as int));
        Some(token_at(rest.as_slice(), a))
    }
}

fn model_name_exec(cs: &[char], from: usize, names: &[String]) -> (r: Option<Vec<char>>)
    requires
        from <= cs.len(),
    ensures
        match r {
            Some(n) => model_name_in(cs@.skip(from as int), string_views(names@)) == Some(n@),
            None => model_name_in(cs@.skip(from as int), string_views(names@)) is None,
        },
{
    let w = match first_word_at(cs, from) {
        Some(w) => w,
        None => return None,
    };
    let a = strip_leading_chars(w.as_slice(), '"');
    let raw = strip_trailing_chars(a.as_slice(), '"');
    let b = match crate::paths::file_name_chars(raw.as_slice()) {
        Some(b) => b,
        None => return None,
    };
    if contains_name(names, b.as_slice()) {
        Some(b)
    } else {
        None
    }
}

fn model_line_exec(line: &[char], config: &Config, plan: &ImportPlan, names: &[String]) -> (r: Vec<
    char,
>)
    ensures
        r@ == model_line(
            line@,
            config.model_path_mode,
            config.nickname@,
            plan.model_dir@,
            string_views(names@),
        ),
{
    let a = trim_left_index(line);
    let ghost t = trim_left(line@);
    assert(t =~= line@.skip(a as int));
    let open = model_open_chars();
    let rest = slice_range(line, a, line.len());
    assert(rest@ =~= t);
    let mut out: Vec<char> = Vec::new();
    if starts_with_chars(rest.as_slice(), open.as_slice()) {
        match model_name_exec(rest.as_slice(), 7, names) {
            Some(n) => {
                let ns = string_from(n.as_slice());
                let reference = model_reference(config, plan, ns.as_str());
                let quoted = quote_kicad_string(reference.as_str());
                let indent = slice_range(line, 0, a);
                assert(indent@ =~= line@.take(line@.len() - t.len()));
                extend_chars(&mut out, indent.as_slice());
                extend_chars(&mut out, open.as_slice());
                extend_str(&mut out, quoted.as_str());
                return out;
            },
            None => {},
        }
    }
    extend_chars(&mut out, line);
    out
}

/// Rewrites the `(model ` references of a footprint (see `rewritten_footprint`): a line
/// whose model file is one of `model_names` points at the library's copy.
pub fn rewrite_model_paths(content: &str, config: &Config, plan: &ImportPlan, model_names: &[String]) -> (r:
    String)
    ensures
        r@ == rewritten_footprint(
            content@,
            config.model_path_mode,
            config.nickname@,
            plan.model_dir@,
            string_views(model_names@),
        ),
{
    let cs = chars_of(content);
    let ls = lines_of(cs.as_slice());
    let ghost lv = lines(content@);
    let ghost mapped = lv.map_values(
        |l: Seq<char>|
            model_line(
                l,
                config.model_path_mode,
                config.nickname@,
                plan.model_dir@,
                string_views(model_names@),
            ),
    );
    let mut out: Vec<char> = Vec::new();
    let mut k: usize = 0;
    while k < ls.len()
        invariant
            k <= ls@.len(),
            ls@.len() == lv.len(),
            forall|j: int| 0 <= j < ls@.len() ==> (#[trigger] ls@[j])@ == lv[j],
            mapped == lv.map_values(
                |l: Seq<char>|
                    model_line(
                        l,
                        config.model_path_mode,
                        config.nickname@,
                        plan.model_dir@,
                        string_views(model_names@),
                    ),
            ),
            out@ == joined_lines(mapped.take(k as int)),
        decreases ls.len() - k,
    {
        let ghost before = out@;
        let next = model_line_exec(ls[k].as_slice(), config, plan, model_names);
        extend_chars(&mut out, next.as_slice());
        out.push('\n');
        assert(mapped.take(k + 1).drop_last() =~= mapped.take(k as int));
        assert(out@ =~= before + mapped[k as int].push('\n'));
        k = k + 1;
    }
    assert(mapped.take(ls.len() as int) =~= mapped);
    string_from(out.as_slice())
}

/// A character a library nickname cannot hold.
pub open spec fn bad_nickname_char(c: char) -> bool {
    is_ws(c) || c == ':' || c == '/' || c == '\\'
}

pub open spec fn bad_nickname_char_at(n: Seq<char>, i: int) -> bool {
    0 <= i < n.len() && bad_nickname_char(n[i])
}

/// Why a nickname is refused, if it is.
pub open spec fn nickname_error(n: Seq<char>) -> Option<Seq<char>> {
    if n.len() == 0 {
        Some("nickname cannot be empty"@)
    } else if exists|i: int| #[trigger] bad_nickname_char_at(n, i) {
        Some("nickname cannot contain whitespace, ':', '/', or '\\'"@)
    } else {
        None
    }
}

/// Checks a library nickname: not empty, and without whitespace, `:`, `/` or `\`.
pub fn validate_nickname(nickname: &str) -> (r: Result<(), String>)
    ensures
        match nickname_error(nickname@) {
            Some(e) => r is Err && r->Err_0@ == e,
            None => r is Ok,
        },
{
    let cs = chars_of(nickname);
    if cs.len() == 0 {
        return Err("nickname cannot be empty".to_owned());
    }
    let mut i: usize = 0;
    while i < cs.len()
        invariant
            i <= cs.len(),
            cs@ == nickname@,
            forall|j: int| 0 <= j < i ==> !#[trigger] bad_nickname_char_at(cs@, j),
        decreases cs.len() - i,
    {
        let c = cs[i];
        if is_whitespace(c) || c == ':' || c == '/' || c == '\\' {
            assert(bad_nickname_char_at(cs@, i as int));
            return Err("nickname cannot contain whitespace, ':', '/', or '\\'".to_owned());
        }
        i = i + 1;
    }
    Ok(())
}

/// A path from the command line: trimmed, with a leading `~` standing for `home` when
/// it is known.
pub open spec fn expanded_path(path: Seq<char>, home: Option<Seq<char>>) -> Seq<char> {
    let t = crate::text::trim(path);
    if t == seq!['~'] {
        match home {
            Some(h) => h,
            None => t,
        }
    } else if starts_with(t, seq!['~', '/']) && home is Some {
        crate::paths::join(home->Some_0, t.skip(2))
    } else {
        t
    }
}

pub open spec fn opt_view(o: Option<&str>) -> Option<Seq<char>> {
    match o {
        Some(s) => Some(s@),
        None => None,
    }
}

/// Expands a leading `~` of a command-line path (see `expanded_path`).
pub fn expand_user_path(path: &str, home: Option<&str>) -> (r: String)
    ensures
        r@ == expanded_path(path@, opt_view(home)),
{
    let t = crate::text::trim_str(path);
    let tc = chars_of(t.as_str());
    if tc.len() == 1 && tc[0] == '~' {
        assert(tc@ =~= seq!['~']);
        return match home {
            Some(h) => string_from(chars_of(h).as_slice()),
            None => t,
        };
    }
    assert(tc@ != seq!['~']);
    let pre = vec!['~', '/'];
    assert(pre@ =~= seq!['~', '/']);
    if starts_with_chars(tc.as_slice(), pre.as_slice()) {
        if let Some(h) = home {
            let rest = string_of_range(tc.as_slice(), 2, tc.len());
            assert(rest@ =~= tc@.skip(2));
            return crate::paths::join_path(h, rest.as_str());
        }
    }
    t
}

/// Where the personal library goes when no root is given.
pub open spec fn default_root(home: Option<Seq<char>>) -> Seq<char> {
    crate::paths::join(
        match home {
            Some(h) => h,
            None => seq!['.'],
        },
        "Documents/KiCad/libs/personal"@,
    )
}

/// The default library root under `home` (see `default_root`).
pub fn default_library_root(home: Option<&str>) -> (r: String)
    ensures
        r@ == default_root(opt_view(home)),
{
    let base = match home {
        Some(h) => h,
        None => ".",
    };
    proof {
        reveal_strlit(".");
    }
    assert(base@ == match opt_view(home) {
        Some(h) => h,
        None => seq!['.'],
    });
    crate::paths::join_path(base, "Documents/KiCad/libs/personal")
}

/// What the command line asks for.
#[derive(Clone, Debug)]
pub enum CommandLine {
    /// Print the usage and stop.
    Help,
    /// Import with this configuration.
    Import(Config),
}

/// The options read so far.
pub struct ArgsSeen {
    pub source: Option<Seq<char>>,
    pub library_root: Option<Seq<char>>,
    pub nickname: Seq<char>,
    pub mode: ModelPathMode,
    pub dry_run: bool,
}

pub open spec fn args_start() -> ArgsSeen {
    ArgsSeen {
        source: None,
        library_root: None,
        nickname: "personal"@,
        mode: ModelPathMode::Absolute,
        dry_run: false,
    }
}

/// Reads the remaining arguments `args` on top of `st`: `Ok(None)` for a help request,
/// `Ok(Some(..))` with the source and the library root filled in, or the error message.
pub open spec fn parsed_args(args: Seq<Seq<char>>, st: ArgsSeen, home: Option<Seq<char>>) -> Result<
    Option<ArgsSeen>,
    Seq<char>,
>
    decreases args.len(),
{
    if args.len() == 0 {
        match st.source {
            None => Err("missing source vendor package path"@),
            Some(_) => Ok(
                Some(
                    ArgsSeen {
                        source: st.source,
                        library_root: Some(
                            match st.library_root {
                                Some(r) => r,
                                None => default_root(home),
                            },
                        ),
                        nickname: st.nickname,
                        mode: st.mode,
                        dry_run: st.dry_run,
                    },
                ),
            ),
        }
    } else {
        let a = args[0];
        let rest = args.drop_first();
        if a == "-h"@ || a == "--help"@ {
            Ok(None)
        } else if a == "--library-root"@ {
            if rest.len() == 0 {
                Err("--library-root requires a path"@)
            } else {
                parsed_args(
                    rest.drop_first(),
                    ArgsSeen {
                        source: st.source,
                        library_root: Some(expanded_path(rest[0], home)),
                        nickname: st.nickname,
                        mode: st.mode,
                        dry_run: st.dry_run,
                    },
                    home,
                )
            }
        } else if a == "--nickname"@ {
            if rest.len() == 0 {
                Err("--nickname requires a value"@)
            } else {
                match nickname_error(rest[0]) {
                    Some(e) => Err(e),
                    None => parsed_args(
                        rest.drop_first(),
                        ArgsSeen {
                            source: st.source,
                            library_root: st.library_root,
                            nickname: rest[0],
                            mode: st.mode,
                            dry_run: st.dry_run,
                        },
                        home,
                    ),
                }
            }
        } else if a == "--model-path-mode"@ {
            if rest.len() == 0 {
                Err("--model-path-mode requires absolute or kiprjmod"@)
            } else if rest[0] == "absolute"@ || rest[0] == "kiprjmod"@ {
                parsed_args(
                    rest.drop_first(),
                    ArgsSeen {
                        source: st.source,
                        library_root: st.library_root,
                        nickname: st.nickname,
                        mode: if rest[0] == "absolute"@ {
                            ModelPathMode::Absolute
                        } else {
                            ModelPathMode::Kiprjmod
                        },
                        dry_run: st.dry_run,
                    },
                    home,
                )
            } else {
                Err("--model-path-mode must be either absolute or kiprjmod"@)
            }
        } else if a == "--dry-run"@ {
            parsed_args(
                rest,
                ArgsSeen {
                    source: st.source,
                    library_root: st.library_root,
                    nickname: st.nickname,
                    mode: st.mode,
                    dry_run: true,
                },
                home,
            )
        } else if a.len() > 0 && a[0] == '-' {
            Err("unknown option: "@ + a)
        } else if st.source is Some {
            Err("unexpected extra argument: "@ + a)
        } else {
            parsed_args(
                rest,
                ArgsSeen {
                    source: Some(expanded_path(a, home)),
                    library_root: st.library_root,
                    nickname: st.nickname,
                    mode: st.mode,
                    dry_run: st.dry_run,
                },
                home,
            )
        }
    }
}

pub open spec fn opt_string_view(o: Option<String>) -> Option<Seq<char>> {
    match o {
        Some(s) => Some(s@),
        None => None,
    }
}

/// The configuration that `a` describes.
pub open spec fn describes(c: Config, a: ArgsSeen) -> bool {
    &&& Some(c.source@) == a.source
    &&& Some(c.library_root@) == a.library_root
    &&& c.nickname@ == a.nickname
    &&& c.model_path_mode == a.mode
    &&& c.dry_run == a.dry_run
}

fn message_with(prefix: &str, value: &str) -> (r: String)
    ensures
        r@ == prefix@ + value@,
{
    let mut v: Vec<char> = Vec::new();
    extend_str(&mut v, prefix);
    extend_str(&mut v, value);
    string_from(v.as_slice())
}

fn copy_str(s: &str) -> (r: String)
    ensures
        r@ == s@,
{
    string_from(chars_of(s).as_slice())
}

impl Config {
    /// Reads the command line (see `parsed_args`); `home` is the user's home directory
    /// when it is known.
    pub fn parse(args: &[String], home: Option<&str>) -> (r: Result<CommandLine, String>)
        ensures
            match parsed_args(string_views(args@), args_start(), opt_view(home)) {
                Err(e) => r is Err && r->Err_0@ == e,
                Ok(None) => r is Ok && r->Ok_0 is Help,
                Ok(Some(a)) => r is Ok && (r->Ok_0 matches CommandLine::Import(c) && describes(c, a)),
            },
    {
        let ghost av = string_views(args@);
        let ghost hv = opt_view(home);
        let mut source: Option<String> = None;
        let mut library_root: Option<String> = None;
        let mut nickname: String = copy_str("personal");
        let mut mode = ModelPathMode::Absolute;
        let mut dry_run = false;
        let mut i: usize = 0;
        assert(av.skip(0) =~= av);
        while i < args.len()
            invariant
                i <= args.len(),
                av == string_views(args@),
                hv == opt_view(home),
                parsed_args(av, args_start(), hv) == parsed_args(
                    av.skip(i as int),
                    ArgsSeen {
                        source: opt_string_view(source),
                        library_root: opt_string_view(library_root),
                        nickname: nickname@,
                        mode: mode,
                        dry_run: dry_run,
                    },
                    hv,
                ),
            decreases args.len() - i,
        {
            let a = args[i].as_str();
            let ghost rest = av.skip(i as int);
            assert(rest[0] == a@);
            assert(rest.drop_first() =~= av.skip(i + 1));
            if crate::text::str_eq(a, "-h") || crate::text::str_eq(a, "--help") {
                return Ok(CommandLine::Help);
            }
            if crate::text::str_eq(a, "--library-root") {
                if i + 1 >= args.len() {
                    return Err(copy_str("--library-root requires a path"));
                }
                assert(rest.drop_first()[0] == args@[i + 1]@);
                assert(rest.drop_first().drop_first() =~= av.skip(i + 2));
                library_root = Some(expand_user_path(args[i + 1].as_str(), home));
                i = i + 2;
            } else if crate::text::str_eq(a, "--nickname") {
                if i + 1 >= args.len() {
                    return Err(copy_str("--nickname requires a value"));
                }
                assert(rest.drop_first()[0] == args@[i + 1]@);
                assert(rest.drop_first().drop_first() =~= av.skip(i + 2));
                let n = args[i + 1].as_str();
                match validate_nickname(n) {
                    Err(e) => return Err(e),
                    Ok(()) => {},
                }
                nickname = copy_str(n);
                i = i + 2;
            } else if crate::text::str_eq(a, "--model-path-mode") {
                if i + 1 >= args.len() {
                    return Err(copy_str("--model-path-mode requires absolute or kiprjmod"));
                }
                assert(rest.drop_first()[0] == args@[i + 1]@);
                assert(rest.drop_first().drop_first() =~= av.skip(i + 2));
                let v = args[i + 1].as_str();
                if crate::text::str_eq(v, "absolute") {
                    mode = ModelPathMode::Absolute;
                } else if crate::text::str_eq(v, "kiprjmod") {
                    mode = ModelPathMode::Kiprjmod;
                } else {
                    return Err(copy_str("--model-path-mode must be either absolute or kiprjmod"));
                }
                i = i + 2;
            } else if crate::text::str_eq(a, "--dry-run") {
                dry_run = true;
                i = i + 1;
            } else {
                let ac = chars_of(a);
                if ac.len() > 0 && ac[0] == '-' {
                    return Err(message_with("unknown option: ", a));
                }
                if source.is_some() {
                    return Err(message_with("unexpected extra argument: ", a));
                }
                source = Some(expand_user_path(a, home));
                i = i + 1;
            }
        }
        assert(av.skip(i as int).len() == 0);
        let src = match source {
            Some(s) => s,
            None => return Err(copy_str("missing source vendor package path")),
        };
        let root = match library_root {
            Some(r) => r,
            None => default_library_root(home),
        };
        Ok(
            CommandLine::Import(
                Config {
                    source: src,
                    library_root: root,
                    nickname: nickname,
                    model_path_mode: mode,
                    dry_run: dry_run,
                },
            ),
        )
    }
}

/// The kinds of file a vendor package holds.
#[derive(Clone, Copy, Debug, PartialEq, Eq, Structural)]
pub enum FileKind {
    Symbol,
    Footprint,
    Model,
}

/// A 3D model extension: `stp`, `step` or `wrl` in any ASCII case.
pub open spec fn is_model_extension(e: Seq<char>) -> bool {
    let l = crate::text::lower_seq(e);
    l == "stp"@ || l == "step"@ || l == "wrl"@
}

/// Whether the file at `p` is of kind `k`, by its extension.
pub open spec fn of_kind(p: Seq<char>, k: FileKind) -> bool {
    match k {
        FileKind::Symbol => crate::paths::extension(p) == Some("kicad_sym"@),
        FileKind::Footprint => crate::paths::extension(p) == Some("kicad_mod"@),
        FileKind::Model => match crate::paths::extension(p) {
            Some(e) => is_model_extension(e),
            None => false,
        },
    }
}

/// Whether the file at `p` is of kind `k` (see `of_kind`).
pub fn is_of_kind(p: &str, k: FileKind) -> (r: bool)
    ensures
        r == of_kind(p@, k),
{
    let pc = chars_of(p);
    let e = match crate::paths::extension_chars(pc.as_slice()) {
        Some(e) => e,
        None => return false,
    };
    match k {
        FileKind::Symbol => crate::text::chars_eq(e.as_slice(), chars_of("kicad_sym").as_slice()),
        FileKind::Footprint => crate::text::chars_eq(e.as_slice(), chars_of("kicad_mod").as_slice()),
        FileKind::Model => {
            let l = crate::text::lower_chars(e.as_slice());
            crate::text::chars_eq(l.as_slice(), chars_of("stp").as_slice()) || crate::text::chars_eq(
                l.as_slice(),
                chars_of("step").as_slice(),
            ) || crate::text::chars_eq(l.as_slice(), chars_of("wrl").as_slice())
        },
    }
}

/// Whether `p` is a 3D model file (see `is_model_extension`).
pub fn is_model_file(p: &str) -> (r: bool)
    ensures
        r == of_kind(p@, FileKind::Model),
{
    is_of_kind(p, FileKind::Model)
}

/// The files of `files` of kind `k`, in order.
pub fn files_of_kind(files: &[String], k: FileKind) -> (r: Vec<String>)
    ensures
        string_views(r@) == string_views(files@).filter(|p: Seq<char>| of_kind(p, k)),
{
    let ghost fv = string_views(files@);
    let mut out: Vec<String> = Vec::new();
    let mut i: usize = 0;
    while i < files.len()
        invariant
            i <= files.len(),
            fv == string_views(files@),
            string_views(out@) == fv.take(i as int).filter(|p: Seq<char>| of_kind(p, k)),
        decreases files.len() - i,
    {
        proof {
            reveal(Seq::filter);
            assert(fv.take(i + 1).drop_last() =~= fv.take(i as int));
        }
        let ghost before = string_views(out@);
        if is_of_kind(files[i].as_str(), k) {
            out.push(files[i].clone());
            assert(string_views(out@) =~= before.push(fv[i as int]));
        }
        i = i + 1;
    }
    assert(fv.take(files.len() as int) =~= fv);
    out
}

/// `name` followed by `suffix`.
pub open spec fn with_suffix(name: Seq<char>, suffix: Seq<char>) -> Seq<char> {
    name + suffix
}

/// The plan that `config` and the files found under its source describe.
pub open spec fn plans(plan: ImportPlan, config: Config, files: Seq<String>) -> bool {
    let fv = string_views(files);
    &&& string_views(plan.symbol_files@) == fv.filter(|p: Seq<char>| of_kind(p, FileKind::Symbol))
    &&& string_views(plan.footprint_files@) == fv.filter(
        |p: Seq<char>| of_kind(p, FileKind::Footprint),
    )
    &&& string_views(plan.model_files@) == fv.filter(|p: Seq<char>| of_kind(p, FileKind::Model))
    &&& plan.symbol_library@ == crate::paths::join(
        config.library_root@,
        config.nickname@ + ".kicad_sym"@,
    )
    &&& plan.footprint_dir@ == crate::paths::join(config.library_root@, config.nickname@ + ".pretty"@)
    &&& plan.model_dir@ == crate::paths::join(config.library_root@, config.nickname@ + ".3dshapes"@)
}

fn library_entry(config: &Config, suffix: &str) -> (r: String)
    ensures
        r@ == crate::paths::join(config.library_root@, config.nickname@ + suffix@),
{
    let n = message_with(config.nickname.as_str(), suffix);
    crate::paths::join_path(config.library_root.as_str(), n.as_str())
}

impl ImportPlan {
    /// Sorts the files found under the source into symbol libraries, footprints and 3D
    /// models, and names the targets under the library root.
    pub fn discover(config: &Config, files: &[String]) -> (r: ImportPlan)
        ensures
            plans(r, *config, files@),
    {
        ImportPlan {
            symbol_files: files_of_kind(files, FileKind::Symbol),
            footprint_files: files_of_kind(files, FileKind::Footprint),
            model_files: files_of_kind(files, FileKind::Model),
            symbol_library: library_entry(config, ".kicad_sym"),
            footprint_dir: library_entry(config, ".pretty"),
            model_dir: library_entry(config, ".3dshapes"),
        }
    }

    /// Whether there is nothing to import: no symbol library and no footprint.
    pub fn is_empty(&self) -> (r: bool)
        ensures
            r == (self.symbol_files@.len() == 0 && self.footprint_files@.len() == 0),
    {
        self.symbol_files.len() == 0 && self.footprint_files.len() == 0
    }
}

/// Where a file goes in `dir`: the directory joined with the file's name.
pub open spec fn target_of(dir: Seq<char>, file: Seq<char>) -> Result<Seq<char>, Seq<char>> {
    match crate::paths::file_name(file) {
        Some(n) => Ok(crate::paths::join(dir, n)),
        None => Err("invalid file name: "@ + file),
    }
}

/// The path a copied file gets in `dir` (see `target_of`).
pub fn target_path(dir: &str, file: &str) -> (r: Result<String, String>)
    ensures
        match target_of(dir@, file@) {
            Ok(t) => r is Ok && r->Ok_0@ == t,
            Err(e) => r is Err && r->Err_0@ == e,
        },
{
    let fc = chars_of(file);
    match crate::paths::file_name_chars(fc.as_slice()) {
        Some(n) => Ok(crate::paths::join_path(dir, string_from(n.as_slice()).as_str())),
        None => Err(message_with("invalid file name: ", file)),
    }
}

/// The file names of `files`, leaving out those that have none.
pub open spec fn file_names(files: Seq<Seq<char>>) -> Seq<Seq<char>>
    decreases files.len(),
{
    if files.len() == 0 {
        Seq::empty()
    } else {
        match crate::paths::file_name(files.last()) {
            Some(n) => file_names(files.drop_last()).push(n),
            None => file_names(files.drop_last()),
        }
    }
}

/// The names of the 3D model files (see `file_names`).
pub fn model_file_names(files: &[String]) -> (r: Vec<String>)
    ensures
        string_views(r@) == file_names(string_views(files@)),
{
    let ghost fv = string_views(files@);
    let mut out: Vec<String> = Vec::new();
    let mut i: usize = 0;
    while i < files.len()
        invariant
            i <= files.len(),
            fv == string_views(files@),
            string_views(out@) == file_names(fv.take(i as int)),
        decreases files.len() - i,
    {
        assert(fv.take(i + 1).drop_last() =~= fv.take(i as int));
        let fc = chars_of(files[i].as_str());
        let ghost before = string_views(out@);
        match crate::paths::file_name_chars(fc.as_slice()) {
            Some(n) => {
                out.push(string_from(n.as_slice()));
                assert(string_views(out@) =~= before.push(n@));
            },
            None => {},
        }
        i = i + 1;
    }
    assert(fv.take(files.len() as int) =~= fv);
    out
}

/// A footprint's name: the stem of its file name.
pub open spec fn footprint_name_of(file: Seq<char>) -> Result<Seq<char>, Seq<char>> {
    match crate::paths::file_stem(file) {
        Some(n) => Ok(n),
        None => Err("invalid footprint file name: "@ + file),
    }
}

/// The name of a footprint file (see `footprint_name_of`).
pub fn footprint_name(file: &str) -> (r: Result<String, String>)
    ensures
        match footprint_name_of(file@) {
            Ok(n) => r is Ok && r->Ok_0@ == n,
            Err(e) => r is Err && r->Err_0@ == e,
        },
{
    let fc = chars_of(file);
    match crate::paths::file_stem_chars(fc.as_slice()) {
        Some(n) => Ok(string_from(n.as_slice())),
        None => Err(message_with("invalid footprint file name: ", file)),
    }
}

/// Names in strictly increasing order, as a `BTreeSet` of strings walks them.
pub open spec fn sorted_names(v: Seq<Seq<char>>) -> bool {
    forall|i: int, j: int|
        0 <= i < j < v.len() ==> crate::text::seq_lt(#[trigger] v[i], #[trigger] v[j])
}

/// The names of the footprint files, in order, or the error for the first file that has
/// none.
pub open spec fn footprint_names_of(files: Seq<Seq<char>>) -> Result<Seq<Seq<char>>, Seq<char>>
    decreases files.len(),
{
    if files.len() == 0 {
        Ok(Seq::empty())
    } else {
        match footprint_name_of(files[0]) {
            Err(e) => Err(e),
            Ok(n) => match footprint_names_of(files.drop_first()) {
                Ok(rest) => Ok(seq![n] + rest),
                Err(e) => Err(e),
            },
        }
    }
}

/// Adds `name` to a sorted set of names.
fn insert_name(set: &mut Vec<String>, name: String)
    requires
        sorted_names(string_views(old(set)@)),
    ensures
        sorted_names(string_views(final(set)@)),
        forall|n: Seq<char>|
            string_views(final(set)@).contains(n) <==> (string_views(old(set)@).contains(n) || n
                == name@),
{
    let ghost old_v = string_views(set@);
    let mut i: usize = 0;
    while i < set.len() && crate::text::str_lt(set[i].as_str(), name.as_str())
        invariant
            i <= set.len(),
            string_views(set@) == old_v,
            forall|j: int| 0 <= j < i ==> crate::text::seq_lt(#[trigger] old_v[j], name@),
        decreases set.len() - i,
    {
        i = i + 1;
    }
    if i < set.len() && crate::text::str_eq(set[i].as_str(), name.as_str()) {
        assert(old_v[i as int] == name@);
        return;
    }
    proof {
        if i < old_v.len() {
            crate::checkpoint::lemma_seq_lt_total(old_v[i as int], name@);
        }
    }
    let ghost nm = name@;
    set.insert(i, name);
    let ghost nv = string_views(set@);
    assert(nv =~= old_v.insert(i as int, nm));
    assert forall|a: int, b: int| 0 <= a < b < nv.len() implies crate::text::seq_lt(
        #[trigger] nv[a],
        #[trigger] nv[b],
    ) by {
        if b < i {
        } else if a < i && b == i {
        } else if a < i && b > i {
            assert(nv[b] == old_v[b - 1]);
        } else if a == i && b > i {
            assert(nv[b] == old_v[b - 1]);
            if b - 1 > i {
                crate::checkpoint::lemma_seq_lt_transitive(nm, old_v[i as int], old_v[b - 1]);
            }
        } else {
            assert(nv[a] == old_v[a - 1]);
            assert(nv[b] == old_v[b - 1]);
        }
    }
    assert forall|n: Seq<char>| nv.contains(n) <==> (old_v.contains(n) || n == nm) by {
        if nv.contains(n) {
            let k = choose|k: int| 0 <= k < nv.len() && nv[k] == n;
            if k < i {
                assert(old_v[k] == n);
            } else if k > i {
                assert(old_v[k - 1] == n);
            }
        }
        if old_v.contains(n) {
            let k = choose|k: int| 0 <= k < old_v.len() && old_v[k] == n;
            if k < i {
                assert(nv[k] == n);
            } else {
                assert(nv[k + 1] == n);
            }
        }
        if n == nm {
            assert(nv[i as int] == n);
        }
    }
}

/// The footprint names of a plan as a sorted set, the order in which symbols are matched
/// against them.
pub fn footprint_name_set(files: &[String]) -> (r: Result<Vec<String>, String>)
    ensures
        match footprint_names_of(string_views(files@)) {
            Ok(ns) => r is Ok && sorted_names(string_views(r->Ok_0@)) && forall|n: Seq<char>|
                string_views(r->Ok_0@).contains(n) <==> ns.contains(n),
            Err(e) => r is Err && r->Err_0@ == e,
        },
{
    let ghost fv = string_views(files@);
    let mut set: Vec<String> = Vec::new();
    let mut i: usize = 0;
    assert(fv.skip(0) =~= fv);
    assert(fv.take(0) =~= Seq::<Seq<char>>::empty());
    while i < files.len()
        invariant
            i <= files.len(),
            fv == string_views(files@),
            sorted_names(string_views(set@)),
            footprint_names_of(fv) == match footprint_names_of(fv.skip(i as int)) {
                Ok(rest) => Ok(footprint_names_of(fv.take(i as int))->Ok_0 + rest),
                Err(e) => Err(e),
            },
            footprint_names_of(fv.take(i as int)) is Ok,
            forall|n: Seq<char>|
                string_views(set@).contains(n) <==> footprint_names_of(
                    fv.take(i as int),
                )->Ok_0.contains(n),
        decreases files.len() - i,
    {
        assert(fv.skip(i as int)[0] == fv[i as int]);
        assert(fv.skip(i as int).drop_first() =~= fv.skip(i + 1));
        let n = match footprint_name(files[i].as_str()) {
            Ok(n) => n,
            Err(e) => return Err(e),
        };
        proof {
            lemma_names_take(fv, i as int);
        }
        let ghost prev = footprint_names_of(fv.take(i as int))->Ok_0;
        let ghost nn = n@;
        insert_name(&mut set, n);
        proof {
            let next = footprint_names_of(fv.take(i + 1))->Ok_0;
            assert(next == prev.push(nn));
            assert forall|x: Seq<char>| next.contains(x) <==> (prev.contains(x) || x == nn) by {
                if next.contains(x) {
                    let k = choose|k: int| 0 <= k < next.len() && next[k] == x;
                    if k < prev.len() {
                        assert(prev[k] == x);
                    }
                }
                if prev.contains(x) {
                    let k = choose|k: int| 0 <= k < prev.len() && prev[k] == x;
                    assert(next[k] == x);
                }
                if x == nn {
                    assert(next[prev.len() as int] == x);
                }
            }
            match footprint_names_of(fv.skip(i + 1)) {
                Ok(rest) => {
                    assert(prev + (seq![nn] + rest) =~= next + rest);
                },
                Err(e) => {},
            }
        }
        i = i + 1;
    }
    assert(fv.take(files.len() as int) =~= fv);
    assert(fv.skip(files.len() as int).len() == 0);
    proof {
        let a = footprint_names_of(fv.take(files.len() as int))->Ok_0;
        assert(a + Seq::<Seq<char>>::empty() =~= a);
    }
    Ok(set)
}

proof fn lemma_names_take(fv: Seq<Seq<char>>, i: int)
    requires
        0 <= i < fv.len(),
        footprint_names_of(fv.take(i)) is Ok,
        footprint_name_of(fv[i]) is Ok,
    ensures
        footprint_names_of(fv.take(i + 1)) == Ok::<Seq<Seq<char>>, Seq<char>>(
            footprint_names_of(fv.take(i))->Ok_0.push(footprint_name_of(fv[i])->Ok_0),
        ),
    decreases i,
{
    let t = fv.take(i + 1);
    if i == 0 {
        assert(t.drop_first() =~= Seq::<Seq<char>>::empty());
        assert(fv.take(0) =~= Seq::<Seq<char>>::empty());
        assert(seq![footprint_name_of(fv[0])->Ok_0] + Seq::<Seq<char>>::empty() =~= Seq::<
            Seq<char>,
        >::empty().push(footprint_name_of(fv[0])->Ok_0));
    } else {
        let tail = fv.skip(1);
        assert(t.drop_first() =~= tail.take(i));
        assert(fv.take(i).drop_first() =~= tail.take(i - 1));
        assert(tail[i - 1] == fv[i]);
        lemma_names_take(tail, i - 1);
        let h = footprint_name_of(fv[0])->Ok_0;
        let a = footprint_names_of(tail.take(i - 1))->Ok_0;
        assert(seq![h] + a.push(footprint_name_of(fv[i])->Ok_0) =~= (seq![h] + a).push(
            footprint_name_of(fv[i])->Ok_0,
        ));
    }
}

/// The names of the blocks that have one, in order.
pub open spec fn names_of(blocks: Seq<Seq<char>>) -> Seq<Seq<char>>
    decreases blocks.len(),
{
    if blocks.len() == 0 {
        Seq::empty()
    } else {
        match symbol_name(blocks.last()) {
            Some(n) => names_of(blocks.drop_last()).push(n),
            None => names_of(blocks.drop_last()),
        }
    }
}

/// The names of the symbols a library already holds; none when it cannot be read.
pub open spec fn existing_names(content: Seq<char>) -> Seq<Seq<char>> {
    match symbols_from(content, 0) {
        Some(blocks) => names_of(blocks),
        None => Seq::empty(),
    }
}

/// The names of the symbols in a library's text (see `existing_names`).
pub fn extract_symbol_names(content: &str) -> (r: Vec<String>)
    ensures
        string_views(r@) == existing_names(content@),
{
    let blocks = match extract_top_level_symbols(content) {
        Ok(b) => b,
        Err(_) => return Vec::new(),
    };
    let ghost bv = string_views(blocks@);
    let mut out: Vec<String> = Vec::new();
    let mut i: usize = 0;
    while i < blocks.len()
        invariant
            i <= blocks.len(),
            bv == string_views(blocks@),
            string_views(out@) == names_of(bv.take(i as int)),
        decreases blocks.len() - i,
    {
        assert(bv.take(i + 1).drop_last() =~= bv.take(i as int));
        let ghost before = string_views(out@);
        match parse_symbol_name(blocks[i].as_str()) {
            Some(n) => {
                out.push(n);
                assert(string_views(out@) =~= before.push(bv[i as int]).take(0) + before.push(
                    symbol_name(bv[i as int])->Some_0,
                ));
            },
            None => {},
        }
        i = i + 1;
    }
    assert(bv.take(blocks.len() as int) =~= bv);
    out
}

/// What an import has seen so far: the symbol names taken (those of the library and those
/// imported), the rewritten symbols to add, and the names skipped as already there.
pub struct ImportTally {
    pub names: Seq<Seq<char>>,
    pub imported: Seq<Seq<char>>,
    pub skipped: Seq<Seq<char>>,
}

/// Takes the symbol blocks of the file at `path` in order: a block whose name is taken is
/// skipped, another is rewritten for the library and its name taken; a block without a
/// name stops the import with an error.
pub open spec fn tally_blocks(
    t: ImportTally,
    path: Seq<char>,
    blocks: Seq<Seq<char>>,
    nickname: Seq<char>,
    footprints: Seq<Seq<char>>,
) -> (ImportTally, Option<Seq<char>>)
    decreases blocks.len(),
{
    if blocks.len() == 0 {
        (t, None)
    } else {
        match symbol_name(blocks[0]) {
            None => (t, Some("failed to parse symbol name in "@ + path)),
            Some(n) => if t.names.contains(n) {
                tally_blocks(
                    ImportTally { names: t.names, imported: t.imported, skipped: t.skipped.push(n) },
                    path,
                    blocks.drop_first(),
                    nickname,
                    footprints,
                )
            } else {
                tally_blocks(
                    ImportTally {
                        names: t.names.push(n),
                        imported: t.imported.push(rewritten_symbol(blocks[0], nickname, footprints)),
                        skipped: t.skipped,
                    },
                    path,
                    blocks.drop_first(),
                    nickname,
                    footprints,
                )
            },
        }
    }
}

/// Takes the symbol library files (path, text) in order; a file whose blocks cannot be
/// read stops the import with an error.
pub open spec fn tally_files(
    t: ImportTally,
    files: Seq<(Seq<char>, Seq<char>)>,
    nickname: Seq<char>,
    footprints: Seq<Seq<char>>,
) -> (ImportTally, Option<Seq<char>>)
    decreases files.len(),
{
    if files.len() == 0 {
        (t, None)
    } else {
        match symbols_from(files[0].1, 0) {
            None => (t, Some(unmatched_message())),
            Some(blocks) => {
                let (t2, err) = tally_blocks(t, files[0].0, blocks, nickname, footprints);
                if err is Some {
                    (t2, err)
                } else {
                    tally_files(t2, files.drop_first(), nickname, footprints)
                }
            },
        }
    }
}

/// `names` is `base` followed by names that are new: none twice and none of `base`.
pub open spec fn fresh_after(base: Seq<Seq<char>>, names: Seq<Seq<char>>) -> bool {
    &&& base.len() <= names.len()
    &&& names.take(base.len() as int) == base
    &&& names.skip(base.len() as int).no_duplicates()
    &&& forall|i: int| base.len() <= i < names.len() ==> !base.contains(#[trigger] names[i])
}

/// Every skipped name is one of `names`.
pub open spec fn skipped_known(t: ImportTally) -> bool {
    forall|i: int| 0 <= i < t.skipped.len() ==> t.names.contains(#[trigger] t.skipped[i])
}

proof fn lemma_fresh_push(base: Seq<Seq<char>>, names: Seq<Seq<char>>, n: Seq<char>)
    requires
        fresh_after(base, names),
        !names.contains(n),
    ensures
        fresh_after(base, names.push(n)),
{
    let m = names.push(n);
    assert(m.take(base.len() as int) =~= names.take(base.len() as int));
    assert(m.skip(base.len() as int) =~= names.skip(base.len() as int).push(n));
    if base.contains(n) {
        let k = choose|k: int| 0 <= k < base.len() && base[k] == n;
        assert(names[k] == names.take(base.len() as int)[k]);
        assert(names.contains(n));
    }
    assert forall|i: int, j: int|
        0 <= i < m.skip(base.len() as int).len() && 0 <= j < m.skip(base.len() as int).len() && i != j
        implies m.skip(base.len() as int)[i] != m.skip(base.len() as int)[j] by {
        let a = names.skip(base.len() as int);
        if i < a.len() && j < a.len() {
        } else if i == a.len() {
            assert(names[base.len() + j] == a[j]);
        } else {
            assert(names[base.len() + i] == a[i]);
        }
    }
    assert forall|i: int| base.len() <= i < m.len() implies !base.contains(#[trigger] m[i]) by {
        if i < names.len() {
            assert(m[i] == names[i]);
        }
    }
}

proof fn lemma_tally_blocks_fresh(
    base: Seq<Seq<char>>,
    t: ImportTally,
    path: Seq<char>,
    blocks: Seq<Seq<char>>,
    nickname: Seq<char>,
    footprints: Seq<Seq<char>>,
)
    requires
        fresh_after(base, t.names),
        t.imported.len() == t.names.len() - base.len(),
        skipped_known(t),
    ensures
        ({
            let r = tally_blocks(t, path, blocks, nickname, footprints).0;
            &&& fresh_after(base, r.names)
            &&& r.imported.len() == r.names.len() - base.len()
            &&& skipped_known(r)
        }),
    decreases blocks.len(),
{
    if blocks.len() > 0 {
        match symbol_name(blocks[0]) {
            None => {},
            Some(n) => {
                if t.names.contains(n) {
                    let t2 = ImportTally { names: t.names, imported: t.imported, skipped: t.skipped.push(n) };
                    assert forall|i: int| 0 <= i < t2.skipped.len() implies t2.names.contains(#[trigger] t2.skipped[i]) by {
                        if i < t.skipped.len() {
                            assert(t2.skipped[i] == t.skipped[i]);
                        }
                    }
                    lemma_tally_blocks_fresh(base, t2, path, blocks.drop_first(), nickname, footprints);
                } else {
                    let t2 = ImportTally {
                        names: t.names.push(n),
                        imported: t.imported.push(rewritten_symbol(blocks[0], nickname, footprints)),
                        skipped: t.skipped,
                    };
                    lemma_fresh_push(base, t.names, n);
                    assert forall|i: int| 0 <= i < t2.skipped.len() implies t2.names.contains(#[trigger] t2.skipped[i]) by {
                        let k = choose|k: int| 0 <= k < t.names.len() && t.names[k] == t.skipped[i];
                        assert(t2.names[k] == t.names[k]);
                    }
                    lemma_tally_blocks_fresh(base, t2, path, blocks.drop_first(), nickname, footprints);
                }
            },
        }
    }
}

proof fn lemma_tally_files_fresh(
    base: Seq<Seq<char>>,
    t: ImportTally,
    files: Seq<(Seq<char>, Seq<char>)>,
    nickname: Seq<char>,
    footprints: Seq<Seq<char>>,
)
    requires
        fresh_after(base, t.names),
        t.imported.len() == t.names.len() - base.len(),
        skipped_known(t),
    ensures
        ({
            let r = tally_files(t, files, nickname, footprints).0;
            &&& fresh_after(base, r.names)
            &&& r.imported.len() == r.names.len() - base.len()
            &&& skipped_known(r)
        }),
    decreases files.len(),
{
    if files.len() > 0 {
        match symbols_from(files[0].1, 0) {
            None => {},
            Some(blocks) => {
                lemma_tally_blocks_fresh(base, t, files[0].0, blocks, nickname, footprints);
                let t2 = tally_blocks(t, files[0].0, blocks, nickname, footprints).0;
                lemma_tally_files_fresh(base, t2, files.drop_first(), nickname, footprints);
            },
        }
    }
}

/// An import takes each symbol name at most once and never one that the library has: the
/// names taken are the library's own followed by one new name per imported symbol, none of
/// them twice and none of them the library's; every skipped name was already taken.
pub proof fn law_import_takes_each_name_once(
    existing: Seq<char>,
    files: Seq<(Seq<char>, Seq<char>)>,
    nickname: Seq<char>,
    footprints: Seq<Seq<char>>,
)
    ensures
        ({
            let t = import_tally(existing, files, nickname, footprints).0;
            &&& fresh_after(existing_names(existing), t.names)
            &&& t.imported.len() == t.names.len() - existing_names(existing).len()
            &&& skipped_known(t)
        }),
{
    let base = existing_names(existing);
    let t0 = ImportTally { names: base, imported: Seq::empty(), skipped: Seq::empty() };
    assert(base.take(base.len() as int) =~= base);
    assert(base.skip(base.len() as int) =~= Seq::<Seq<char>>::empty());
    lemma_tally_files_fresh(base, t0, files, nickname, footprints);
}

/// The outcome of importing symbols into a library.
#[derive(Debug)]
pub struct SymbolImport {
    /// The names skipped because the library already had them, in order.
    pub skipped: Vec<String>,
    /// The new library text (`None` when nothing was added), or the error that stopped
    /// the import.
    pub library: Result<Option<String>, String>,
}

pub open spec fn file_views(files: Seq<(String, String)>) -> Seq<(Seq<char>, Seq<char>)> {
    files.map_values(|f: (String, String)| (f.0@, f.1@))
}

/// The tally of an import into the library `existing`.
pub open spec fn import_tally(
    existing: Seq<char>,
    files: Seq<(Seq<char>, Seq<char>)>,
    nickname: Seq<char>,
    footprints: Seq<Seq<char>>,
) -> (ImportTally, Option<Seq<char>>) {
    tally_files(
        ImportTally { names: existing_names(existing), imported: Seq::empty(), skipped: Seq::empty() },
        files,
        nickname,
        footprints,
    )
}

/// The library text after an import: the error that stopped it, no change when nothing
/// was imported, or the library with the imported symbols appended.
pub open spec fn imported_library(
    existing: Seq<char>,
    files: Seq<(Seq<char>, Seq<char>)>,
    nickname: Seq<char>,
    footprints: Seq<Seq<char>>,
) -> Result<Option<Seq<char>>, Seq<char>> {
    let (t, err) = import_tally(existing, files, nickname, footprints);
    match err {
        Some(e) => Err(e),
        None => if t.imported.len() == 0 {
            Ok(None)
        } else {
            match appended_library(existing, t.imported) {
                Some(lib) => Ok(Some(lib)),
                None => Err(not_a_library_message()),
            }
        },
    }
}

pub open spec fn library_view(r: Result<Option<String>, String>) -> Result<Option<Seq<char>>, Seq<char>> {
    match r {
        Ok(Some(s)) => Ok(Some(s@)),
        Ok(None) => Ok(None),
        Err(e) => Err(e@),
    }
}

/// The running tally of an import.
struct Tally {
    names: Vec<String>,
    imported: Vec<String>,
    skipped: Vec<String>,
}

impl Tally {
    spec fn view(&self) -> ImportTally {
        ImportTally {
            names: string_views(self.names@),
            imported: string_views(self.imported@),
            skipped: string_views(self.skipped@),
        }
    }
}

fn tally_file(
    t: &mut Tally,
    path: &str,
    content: &str,
    nickname: &str,
    footprints: &[String],
) -> (err: Option<String>)
    ensures
        match symbols_from(content@, 0) {
            None => err is Some && err->Some_0@ == unmatched_message() && final(t).view() == old(
                t,
            ).view(),
            Some(blocks) => {
                let (t2, e) = tally_blocks(
                    old(t).view(),
                    path@,
                    blocks,
                    nickname@,
                    string_views(footprints@),
                );
                final(t).view() == t2 && opt_string_view(err) == e
            },
        },
{
    let blocks = match extract_top_level_symbols(content) {
        Ok(b) => b,
        Err(e) => return Some(e),
    };
    let ghost bv = string_views(blocks@);
    let ghost fv = string_views(footprints@);
    let ghost start = t.view();
    let mut i: usize = 0;
    assert(bv.skip(0) =~= bv);
    while i < blocks.len()
        invariant
            i <= blocks.len(),
            bv == string_views(blocks@),
            fv == string_views(footprints@),
            symbols_from(content@, 0) == Some(bv),
            start == old(t).view(),
            tally_blocks(start, path@, bv, nickname@, fv) == tally_blocks(
                t.view(),
                path@,
                bv.skip(i as int),
                nickname@,
                fv,
            ),
        decreases blocks.len() - i,
    {
        assert(bv.skip(i as int)[0] == bv[i as int]);
        assert(bv.skip(i as int).drop_first() =~= bv.skip(i + 1));
        assert(bv[i as int] == blocks@[i as int]@);
        let name = match parse_symbol_name(blocks[i].as_str()) {
            Some(n) => n,
            None => return Some(message_with("failed to parse symbol name in ", path)),
        };
        let nc = chars_of(name.as_str());
        if contains_name(t.names.as_slice(), nc.as_slice()) {
            let ghost before = string_views(t.skipped@);
            t.skipped.push(name);
            assert(string_views(t.skipped@) =~= before.push(nc@));
        } else {
            let rewritten = rewrite_symbol_footprints(blocks[i].as_str(), nickname, footprints);
            let ghost nb = string_views(t.names@);
            let ghost ib = string_views(t.imported@);
            t.names.push(name);
            t.imported.push(rewritten);
            assert(string_views(t.names@) =~= nb.push(nc@));
            assert(string_views(t.imported@) =~= ib.push(
                rewritten_symbol(bv[i as int], nickname@, fv),
            ));
        }
        i = i + 1;
    }
    assert(bv.skip(blocks.len() as int).len() == 0);
    None
}

/// Imports the symbols of the given symbol library files (path, text) into the library
/// text `existing`: symbols whose name the library already has (or an earlier import
/// took) are skipped, the others get their footprints pointed into `nickname` (see
/// `rewrite_symbol_footprints`) and are appended (see `append_symbols`).
pub fn plan_symbol_import(
    existing: &str,
    files: &[(String, String)],
    nickname: &str,
    footprint_names: &[String],
) -> (r: SymbolImport)
    ensures
        string_views(r.skipped@) == import_tally(
            existing@,
            file_views(files@),
            nickname@,
            string_views(footprint_names@),
        ).0.skipped,
        library_view(r.library) == imported_library(
            existing@,
            file_views(files@),
            nickname@,
            string_views(footprint_names@),
        ),
{
    let ghost fv = file_views(files@);
    let ghost nv = string_views(footprint_names@);
    let mut t = Tally { names: extract_symbol_names(existing), imported: Vec::new(), skipped: Vec::new() };
    assert(string_views(t.imported@) =~= Seq::<Seq<char>>::empty());
    assert(string_views(t.skipped@) =~= Seq::<Seq<char>>::empty());
    assert(t.view() == ImportTally {
        names: existing_names(existing@),
        imported: Seq::empty(),
        skipped: Seq::empty(),
    });
    let ghost start = t.view();
    let mut k: usize = 0;
    assert(fv.skip(0) =~= fv);
    while k < files.len()
        invariant
            k <= files.len(),
            fv == file_views(files@),
            nv == string_views(footprint_names@),
            tally_files(start, fv, nickname@, nv) == tally_files(
                t.view(),
                fv.skip(k as int),
                nickname@,
                nv,
            ),
            start == (ImportTally {
                names: existing_names(existing@),
                imported: Seq::empty(),
                skipped: Seq::empty(),
            }),
        decreases files.len() - k,
    {
        assert(fv.skip(k as int)[0] == (files@[k as int].0@, files@[k as int].1@));
        assert(fv.skip(k as int).drop_first() =~= fv.skip(k + 1));
        let err = tally_file(&mut t, files[k].0.as_str(), files[k].1.as_str(), nickname, footprint_names);
        if let Some(e) = err {
            return SymbolImport { skipped: t.skipped, library: Err(e) };
        }
        k = k + 1;
    }
    assert(fv.skip(files.len() as int).len() == 0);
    if t.imported.len() == 0 {
        return SymbolImport { skipped: t.skipped, library: Ok(None) };
    }
    let library = match append_symbols(existing, t.imported.as_slice()) {
        Ok(lib) => Ok(Some(lib)),
        Err(e) => Err(e),
    };
    SymbolImport { skipped: t.skipped, library }
}

} // verus!
