//! Finding a component number in copied text with a user's keyword.
use vstd::prelude::*;
use crate::text::{
    chars_of, contains_chars, contains_seq, extend_chars, find_first, first_occurrence, is_ws,
    is_whitespace, starts_with, starts_with_chars, string_from, trim, trim_chars,
};
use crate::pattern::{Pattern, regex_compiles, regex_first_match, opt_string_view};
use crate::sexpr::slice_range;

verus! {

/// Whether `c` is alphabetic or numeric in Unicode, as `char::is_alphanumeric` decides.
pub uninterp spec fn unicode_alphanumeric(c: char) -> bool;

/// `char::is_alphanumeric`: Unicode `Alphabetic` or `Numeric`. The result is named by
/// `unicode_alphanumeric`.
#[verifier::external_body]
fn is_alphanumeric(c: char) -> (r: bool)
    ensures
        r == unicode_alphanumeric(c),
{
    c.is_alphanumeric()
}

/// The pieces of `s` between occurrences of `||`, as `str::split("||")` gives them.
pub open spec fn split_bars(s: Seq<char>) -> Seq<Seq<char>>
    decreases s.len(),
{
    match first_occurrence(s, "||"@) {
        None => seq![s],
        Some(i) => if 0 <= i && i + 2 <= s.len() {
            seq![s.take(i)] + split_bars(s.skip(i + 2))
        } else {
            seq![s]
        },
    }
}

/// The text of `t` up to its first whitespace.
pub open spec fn first_token(t: Seq<char>) -> Seq<char>
    decreases t.len(),
{
    if t.len() == 0 || is_ws(t[0]) {
        Seq::empty()
    } else {
        seq![t[0]] + first_token(t.skip(1))
    }
}

/// A character kept in an extracted number.
pub open spec fn id_char(c: char) -> bool {
    unicode_alphanumeric(c) || c == '-' || c == '_'
}

/// The literal mode: the first word after the first occurrence of `keyword`, keeping
/// letters, digits, `-` and `_`; `None` when the keyword does not occur or nothing is kept.
pub open spec fn literal_extract(content: Seq<char>, keyword: Seq<char>) -> Option<Seq<char>> {
    match first_occurrence(content, keyword) {
        None => None,
        Some(p) => {
            let cleaned = first_token(trim(content.skip(p + keyword.len()))).filter(|c: char| id_char(c));
            if cleaned.len() > 0 {
                Some(cleaned)
            } else {
                None
            }
        },
    }
}

/// The regex mode's answer for a match: its first group, else the whole match, when it
/// is not empty.
pub open spec fn picked(m: Option<(Seq<char>, Option<Seq<char>>)>) -> Option<Seq<char>> {
    match m {
        None => None,
        Some((whole, g)) => {
            let s = match g {
                Some(x) => x,
                None => whole,
            };
            if s.len() > 0 {
                Some(s)
            } else {
                None
            }
        },
    }
}

/// What one keyword part gives: the literal answer, or for a `regex:` part the answer of
/// its first match when the pattern compiles, and nothing when it does not.
pub open spec fn single_result(content: Seq<char>, keyword: Seq<char>, r: Option<Seq<char>>) -> bool {
    if starts_with(keyword, "regex:"@) {
        r == if regex_compiles(keyword.skip(6)) {
            picked(regex_first_match(keyword.skip(6), content))
        } else {
            None
        }
    } else {
        r == literal_extract(content, keyword)
    }
}

/// What a list of keyword parts may give: the answer of the first part that gives one.
pub open spec fn parts_result(content: Seq<char>, parts: Seq<Seq<char>>, r: Option<Seq<char>>) -> bool
    decreases parts.len(),
{
    if parts.len() == 0 {
        r is None
    } else {
        let p = trim(parts[0]);
        if p.len() == 0 {
            parts_result(content, parts.skip(1), r)
        } else {
            ||| (r is Some && single_result(content, p, r))
            ||| (single_result(content, p, None) && parts_result(content, parts.skip(1), r))
        }
    }
}

/// What a keyword may give for `content`: with `||` in it, the answer of its first part
/// that gives one; otherwise the answer of the whole keyword.
pub open spec fn keyword_result(content: Seq<char>, keyword: Seq<char>, r: Option<Seq<char>>) -> bool {
    if contains_seq(keyword, "||"@) {
        parts_result(content, split_bars(keyword), r)
    } else {
        single_result(content, keyword, r)
    }
}

/// The answer for a regex match found by the caller (see `picked`).
pub fn pick_match(m: Option<(String, Option<String>)>) -> (r: Option<String>)
    ensures
        opt_string_view(r) == picked(
            match m {
                Some((w, g)) => Some((w@, opt_string_view(g))),
                None => None,
            },
        ),
{
    match m {
        None => None,
        Some((whole, g)) => {
            let s = match g {
                Some(x) => x,
                None => whole,
            };
            if s.as_str().is_empty() {
                None
            } else {
                Some(s)
            }
        },
    }
}

/// The literal-mode answer (see `literal_extract`).
pub fn extract_literal(content: &str, keyword: &str) -> (r: Option<String>)
    ensures
        opt_string_view(r) == literal_extract(content@, keyword@),
{
    let cs = chars_of(content);
    let kw = chars_of(keyword);
    let p = match find_first(cs.as_slice(), kw.as_slice()) {
        Some(p) => p,
        None => return None,
    };
    let kl = kw.len();
    assert(crate::text::occurs_at(cs@, p as int, kw@));
    assert(p + kl <= cs.len());
    let after = slice_range(cs.as_slice(), p + kl, cs.len());
    assert(after@ =~= content@.skip(p + keyword@.len()));
    let t = trim_chars(after.as_slice());
    let mut e: usize = 0;
    assert(t@.skip(0) =~= t@);
    assert(t@.take(0) =~= Seq::<char>::empty());
    while e < t.len() && !is_whitespace(t[e])
        invariant
            e <= t@.len(),
            first_token(t@) == t@.take(e as int) + first_token(t@.skip(e as int)),
        decreases t@.len() - e,
    {
        assert(t@.skip(e as int).skip(1) =~= t@.skip(e + 1));
        assert(t@.take(e + 1) =~= t@.take(e as int).push(t@[e as int]));
        e = e + 1;
    }
    proof {
        if e < t@.len() {
            assert(first_token(t@.skip(e as int)) == Seq::<char>::empty());
        } else {
            assert(t@.skip(e as int).len() == 0);
        }
    }
    assert(first_token(t@) =~= t@.take(e as int));
    let ghost tok = t@.take(e as int);
    let mut cleaned: Vec<char> = Vec::new();
    let mut i: usize = 0;
    while i < e
        invariant
            i <= e <= t@.len(),
            tok == t@.take(e as int),
            cleaned@ == tok.take(i as int).filter(|c: char| id_char(c)),
        decreases e - i,
    {
        proof {
            reveal(Seq::filter);
            assert(tok.take(i + 1).drop_last() =~= tok.take(i as int));
        }
        let c = t[i];
        if is_alphanumeric(c) || c == '-' || c == '_' {
            cleaned.push(c);
        }
        i = i + 1;
    }
    assert(tok.take(e as int) =~= tok);
    if cleaned.len() > 0 {
        Some(string_from(cleaned.as_slice()))
    } else {
        None
    }
}

fn extract_single(content: &str, keyword: &str) -> (r: Option<String>)
    ensures
        single_result(content@, keyword@, opt_string_view(r)),
{
    let kw = chars_of(keyword);
    let prefix = chars_of("regex:");
    if starts_with_chars(kw.as_slice(), prefix.as_slice()) {
        proof {
            reveal_strlit("regex:");
        }
        let pat = slice_range(kw.as_slice(), 6, kw.len());
        let ps = string_from(pat.as_slice());
        assert(ps@ =~= keyword@.skip(6));
        match Pattern::compile(ps.as_str()) {
            None => None,
            Some(p) => pick_match(p.first_match(content)),
        }
    } else {
        extract_literal(content, keyword)
    }
}

/// The pieces of `s` between occurrences of `||`.
fn split_on_bars(s: &[char]) -> (r: Vec<Vec<char>>)
    ensures
        r@.map_values(|v: Vec<char>| v@) == split_bars(s@),
    decreases s.len(),
{
    let bars = chars_of("||");
    proof {
        reveal_strlit("||");
    }
    match find_first(s, bars.as_slice()) {
        None => {
            let mut out: Vec<Vec<char>> = Vec::new();
            let mut one: Vec<char> = Vec::new();
            extend_chars(&mut one, s);
            out.push(one);
            assert(out@.map_values(|v: Vec<char>| v@) =~= seq![s@]);
            out
        },
        Some(i) => {
            let head = slice_range(s, 0, i);
            let tail = slice_range(s, i + 2, s.len());
            let rest = split_on_bars(tail.as_slice());
            let mut out: Vec<Vec<char>> = Vec::new();
            out.push(head);
            let mut k: usize = 0;
            while k < rest.len()
                invariant
                    k <= rest@.len(),
                    out@.map_values(|v: Vec<char>| v@) == seq![s@.take(i as int)] + rest@.map_values(
                        |v: Vec<char>| v@,
                    ).take(k as int),
                decreases rest@.len() - k,
            {
                let mut copy: Vec<char> = Vec::new();
                extend_chars(&mut copy, rest[k].as_slice());
                let ghost before = out@.map_values(|v: Vec<char>| v@);
                out.push(copy);
                assert(out@.map_values(|v: Vec<char>| v@) =~= before.push(rest@[k as int]@));
                assert(rest@.map_values(|v: Vec<char>| v@).take(k + 1) =~= rest@.map_values(
                    |v: Vec<char>| v@,
                ).take(k as int).push(rest@[k as int]@));
                k = k + 1;
            }
            assert(rest@.map_values(|v: Vec<char>| v@).take(rest@.len() as int) =~= rest@.map_values(
                |v: Vec<char>| v@,
            ));
            assert(tail@ =~= s@.skip(i + 2));
            out
        },
    }
}

/// A component number found in `content` with `keyword`: `regex:<pattern>` parts take the
/// first group of the first match (or the whole match), other parts the word after the
/// keyword; with `||` the parts are tried in order and the first answer wins.
pub fn extract_by_keyword(content: &str, keyword: &str) -> (r: Option<String>)
    ensures
        keyword_result(content@, keyword@, opt_string_view(r)),
{
    let kw = chars_of(keyword);
    let bars = chars_of("||");
    if contains_chars(kw.as_slice(), bars.as_slice()) {
        let parts = split_on_bars(kw.as_slice());
        let ghost pv = parts@.map_values(|v: Vec<char>| v@);
        let mut k: usize = 0;
        assert(pv.skip(0) =~= pv);
        while k < parts.len()
            invariant
                k <= parts@.len(),
                pv == parts@.map_values(|v: Vec<char>| v@),
                pv == split_bars(keyword@),
                contains_seq(keyword@, "||"@),
                forall|r: Option<Seq<char>>| #[trigger] parts_result(content@, pv.skip(k as int), r) ==> parts_result(content@, pv, r),
            decreases parts@.len() - k,
        {
            let part = trim_chars(parts[k].as_slice());
            assert(pv.skip(k as int)[0] == parts@[k as int]@);
            assert(pv.skip(k as int).skip(1) =~= pv.skip(k + 1));
            if part.len() > 0 {
                let ps = string_from(part.as_slice());
                match extract_single(content, ps.as_str()) {
                    Some(found) => {
                        assert(parts_result(content@, pv.skip(k as int), opt_string_view(Some(found))));
                        assert(parts_result(content@, pv, opt_string_view(Some(found))));
                        assert(contains_seq(keyword@, "||"@));
                        return Some(found);
                    },
                    None => {
                        assert forall|r: Option<Seq<char>>| #[trigger] parts_result(content@, pv.skip(k + 1), r) implies parts_result(content@, pv, r) by {
                            assert(parts_result(content@, pv.skip(k as int), r));
                        }
                    },
                }
            } else {
                assert forall|r: Option<Seq<char>>| #[trigger] parts_result(content@, pv.skip(k + 1), r) implies parts_result(content@, pv, r) by {
                    assert(parts_result(content@, pv.skip(k as int), r));
                }
            }
            k = k + 1;
        }
        assert(parts_result(content@, pv.skip(k as int), None));
        assert(parts_result(content@, pv, None));
        None
    } else {
        extract_single(content, keyword)
    }
}


proof fn lemma_first_token_whole(w: Seq<char>)
    requires
        forall|i: int| 0 <= i < w.len() ==> !is_ws(#[trigger] w[i]),
    ensures
        first_token(w) == w,
    decreases w.len(),
{
    if w.len() > 0 {
        assert forall|i: int| 0 <= i < w.skip(1).len() implies !is_ws(#[trigger] w.skip(1)[i]) by {
            assert(w.skip(1)[i] == w[i + 1]);
        }
        lemma_first_token_whole(w.skip(1));
        assert(seq![w[0]] + w.skip(1) =~= w);
    }
}

proof fn lemma_filter_keeps_ids(w: Seq<char>)
    requires
        forall|i: int| 0 <= i < w.len() ==> (unicode_alphanumeric(#[trigger] w[i]) || w[i] == '-' || w[i] == '_'),
    ensures
        w.filter(|c: char| id_char(c)) == w,
    decreases w.len(),
{
    reveal(Seq::filter);
    if w.len() > 0 {
        assert forall|i: int| 0 <= i < w.drop_last().len() implies (unicode_alphanumeric(#[trigger] w.drop_last()[i])
            || w.drop_last()[i] == '-' || w.drop_last()[i] == '_') by {
            assert(w.drop_last()[i] == w[i]);
        }
        lemma_filter_keeps_ids(w.drop_last());
        assert(id_char(w[w.len() - 1]));
        assert(w.drop_last().push(w.last()) =~= w);
    }
}

/// Law: in literal mode, the word after the keyword comes back unchanged when it is made of
/// letters or digits (as `char::is_alphanumeric` decides), `-` and `_`: nothing of it is
/// dropped, and nothing else is the answer.
pub proof fn law_literal_keeps_the_word(keyword: Seq<char>, word: Seq<char>)
    requires
        !starts_with(keyword, "regex:"@),
        !contains_seq(keyword, "||"@),
        word.len() > 0,
        forall|i: int| 0 <= i < word.len() ==> !is_ws(#[trigger] word[i]) && (unicode_alphanumeric(word[i])
            || word[i] == '-' || word[i] == '_'),
    ensures
        forall|r: Option<Seq<char>>|
            keyword_result(keyword + seq![' '] + word, keyword, r) <==> r == Some(word),
{
    let content = keyword + seq![' '] + word;
    assert(content.subrange(0, keyword.len() as int) =~= keyword);
    assert(crate::text::occurs_at(content, 0, keyword));
    assert(contains_seq(content, keyword));
    reveal(first_occurrence);
    assert(crate::text::occurs_at(content, 0, keyword) && forall|j: int|
        0 <= j < 0 ==> !crate::text::occurs_at(content, j, keyword));
    let p = choose|i: int|
        crate::text::occurs_at(content, i, keyword) && forall|j: int| 0 <= j < i ==> !crate::text::occurs_at(content, j, keyword);
    if p > 0 {
        assert(!crate::text::occurs_at(content, 0, keyword));
    }
    assert(p == 0);
    assert(first_occurrence(content, keyword) == Some(0int));
    let rest = content.skip(keyword.len() as int);
    assert(rest =~= seq![' '] + word);
    assert(is_ws(' '));
    assert(rest.drop_first() =~= word);
    assert(crate::text::trim_left(rest) == crate::text::trim_left(word));
    assert(!is_ws(word[0]));
    assert(crate::text::trim_left(word) == word);
    assert(!is_ws(word.last()));
    assert(crate::text::trim_right(word) == word);
    assert(trim(rest) == word);
    lemma_first_token_whole(word);
    assert forall|i: int| 0 <= i < word.len() implies (unicode_alphanumeric(#[trigger] word[i]) || word[i] == '-'
        || word[i] == '_') by {}
    lemma_filter_keeps_ids(word);
    assert(literal_extract(content, keyword) == Some(word));
}
} // verus!
