//! Scanning of KiCad s-expression text: parentheses, quoted strings and escapes.
use vstd::prelude::*;
use crate::text::{occurs_at, occurs_at_exec, extend_chars};

verus! {

/// Scanner state: nesting depth, inside a quoted string, after a backslash inside a string.
pub type LexState = (int, bool, bool);

/// One scanner step over character `c`.
pub open spec fn lex_step(st: LexState, c: char) -> LexState {
    if st.1 {
        if st.2 {
            (st.0, true, false)
        } else if c == '\\' {
            (st.0, true, true)
        } else if c == '"' {
            (st.0, false, false)
        } else {
            (st.0, true, false)
        }
    } else if c == '"' {
        (st.0, true, false)
    } else if c == '(' {
        (st.0 + 1, false, false)
    } else if c == ')' {
        (st.0 - 1, false, false)
    } else {
        st
    }
}

/// The scanner state after reading `s[start..i]` from the initial state.
pub open spec fn lex_at(s: Seq<char>, start: int, i: int) -> LexState
    decreases i - start,
{
    if i <= start {
        (0, false, false)
    } else {
        lex_step(lex_at(s, start, i - 1), s[i - 1])
    }
}

/// At `j` the scan from `start` meets a `)` outside strings that closes depth 1 or
/// would go below zero: the point where a bracket-matching scan stops.
pub open spec fn paren_stop(s: Seq<char>, start: int, j: int) -> bool {
    &&& start <= j < s.len()
    &&& !lex_at(s, start, j).1
    &&& s[j] == ')'
    &&& lex_at(s, start, j).0 <= 1
}

/// The first stop of the bracket scan from `start`, if any.
#[verifier::opaque]
pub open spec fn first_paren_stop(s: Seq<char>, start: int) -> Option<int> {
    if exists|j: int| paren_stop(s, start, j) {
        Some(
            choose|j: int|
                paren_stop(s, start, j) && forall|k: int| start <= k < j ==> !paren_stop(s, start, k),
        )
    } else {
        None
    }
}

/// End (exclusive) of the parenthesised group opening at `start`; `None` when the
/// group is unclosed or a stray `)` comes first.
pub open spec fn paren_group_end(s: Seq<char>, start: int) -> Option<int> {
    match first_paren_stop(s, start) {
        Some(j) => if lex_at(s, start, j).0 == 1 {
            Some(j + 1)
        } else {
            None
        },
        None => None,
    }
}

proof fn lemma_first_stop_unique(s: Seq<char>, start: int, j: int)
    requires
        paren_stop(s, start, j),
        forall|k: int| start <= k < j ==> !paren_stop(s, start, k),
    ensures
        first_paren_stop(s, start) == Some(j),
{
    reveal(first_paren_stop);
    let c = choose|c: int|
        paren_stop(s, start, c) && forall|k: int| start <= k < c ==> !paren_stop(s, start, k);
    if c < j {
        assert(!paren_stop(s, start, c));
    }
    if j < c {
        assert(!paren_stop(s, start, j));
    }
}

/// The first stop is a stop, and no earlier position is.
pub proof fn lemma_first_stop_props(s: Seq<char>, start: int)
    ensures
        first_paren_stop(s, start) matches Some(j) ==> paren_stop(s, start, j) && forall|k: int|
            start <= k < j ==> !paren_stop(s, start, k),
{
    reveal(first_paren_stop);
    if exists|j: int| paren_stop(s, start, j) {
        let j = choose|j: int| paren_stop(s, start, j);
        let p = |k: int| paren_stop(s, start, k);
        lemma_least(p, start, j);
        let m = choose|m: int|
            start <= m <= j && #[trigger] p(m) && forall|k: int| start <= k < m ==> !#[trigger] p(k);
        assert forall|k: int| start <= k < m implies !paren_stop(s, start, k) by {
            assert(!p(k));
        }
    }
}

/// A group that opens at `start` ends after it and within `s`.
pub proof fn lemma_group_end_after(s: Seq<char>, i: int)
    requires
        0 <= i < s.len(),
        s[i] == '(',
    ensures
        paren_group_end(s, i) matches Some(e) ==> i < e <= s.len(),
{
    lemma_first_stop_props(s, i);
}

/// Depth stays non-negative until the first stop.
proof fn lemma_depth_nonneg(s: Seq<char>, start: int, i: int)
    requires
        start <= i <= s.len(),
        forall|k: int| start <= k < i ==> !paren_stop(s, start, k),
    ensures
        lex_at(s, start, i).0 >= 0,
        lex_at(s, start, i).1 || !lex_at(s, start, i).2,
    decreases i - start,
{
    if i > start {
        lemma_depth_nonneg(s, start, i - 1);
        assert(!paren_stop(s, start, i - 1));
    }
}

/// Finds the first stop of the bracket scan from `start`, with the depth there.
fn scan_paren_stop(cs: &[char], start: usize) -> (r: Option<(usize, usize)>)
    requires
        start <= cs.len(),
    ensures
        match r {
            Some((j, d)) => first_paren_stop(cs@, start as int) == Some(j as int) && d
                == lex_at(cs@, start as int, j as int).0 && j < cs.len(),
            None => first_paren_stop(cs@, start as int) == None::<int>,
        },
{
    let mut depth: usize = 0;
    let mut in_string = false;
    let mut escaped = false;
    let mut i = start;
    while i < cs.len()
        invariant
            start <= i <= cs.len(),
            lex_at(cs@, start as int, i as int) == (depth as int, in_string, escaped),
            in_string || !escaped,
            depth <= i - start,
            forall|k: int| start <= k < i ==> !paren_stop(cs@, start as int, k),
        decreases cs.len() - i,
    {
        let c = cs[i];
        let ghost prev = lex_at(cs@, start as int, i as int);
        assert(lex_at(cs@, start as int, i + 1) == lex_step(prev, c));
        if in_string {
            if escaped {
                escaped = false;
            } else if c == '\\' {
                escaped = true;
            } else if c == '"' {
                in_string = false;
            }
        } else if c == '"' {
            in_string = true;
        } else if c == '(' {
            depth = depth + 1;
        } else if c == ')' {
            if depth <= 1 {
                proof {
                    lemma_first_stop_unique(cs@, start as int, i as int);
                }
                return Some((i, depth));
            }
            depth = depth - 1;
        }
        i = i + 1;
    }
    assert forall|j: int| !paren_stop(cs@, start as int, j) by {
        if start <= j < i {
        }
    }
    reveal(first_paren_stop);
    None
}

/// End (exclusive) of the parenthesised group that opens at `start`, honouring quoted
/// strings with backslash escapes; `None` when it is never closed.
pub fn matching_paren_end(cs: &[char], start: usize) -> (r: Option<usize>)
    requires
        start <= cs.len(),
    ensures
        r matches Some(e) ==> paren_group_end(cs@, start as int) == Some(e as int),
        r is None ==> paren_group_end(cs@, start as int) is None,
{
    match scan_paren_stop(cs, start) {
        Some((j, d)) => {
            if d == 1 {
                Some(j + 1)
            } else {
                None
            }
        },
        None => None,
    }
}

/// Position of the `)` that closes the group opening at `start` (inclusive end).
pub fn matching_paren_index(cs: &[char], start: usize) -> (r: Option<usize>)
    requires
        start <= cs.len(),
    ensures
        r matches Some(e) ==> paren_group_end(cs@, start as int) == Some(e + 1),
        r is None ==> paren_group_end(cs@, start as int) is None,
{
    match scan_paren_stop(cs, start) {
        Some((j, d)) => {
            if d == 1 {
                Some(j)
            } else {
                None
            }
        },
        None => None,
    }
}

/// Backslash state inside a string body that starts at `from`, after reading `s[from..i]`.
pub open spec fn escaped_at(s: Seq<char>, from: int, i: int) -> bool
    decreases i - from,
{
    if i <= from {
        false
    } else if escaped_at(s, from, i - 1) {
        false
    } else {
        s[i - 1] == '\\'
    }
}

/// `j` holds an unescaped `"` of a string body starting at `from`.
pub open spec fn closing_quote(s: Seq<char>, from: int, j: int) -> bool {
    from <= j < s.len() && s[j] == '"' && !escaped_at(s, from, j)
}

/// Position of the quote that closes the string opened by the quote at `q`.
#[verifier::opaque]
pub open spec fn quoted_end(s: Seq<char>, q: int) -> Option<int> {
    if exists|j: int| #[trigger] closing_quote(s, q + 1, j) {
        Some(
            choose|j: int|
                #[trigger] closing_quote(s, q + 1, j) && forall|k: int|
                    q + 1 <= k < j ==> !#[trigger] closing_quote(s, q + 1, k),
        )
    } else {
        None
    }
}

/// Finds the quote closing the string whose opening quote is at `q`.
pub fn quoted_string_end(cs: &[char], q: usize) -> (r: Option<usize>)
    requires
        q < cs.len(),
    ensures
        r matches Some(e) ==> quoted_end(cs@, q as int) == Some(e as int) && q < e < cs.len(),
        r is None ==> quoted_end(cs@, q as int) is None,
{
    let mut i = q + 1;
    let mut escaped = false;
    while i < cs.len()
        invariant
            q + 1 <= i <= cs.len(),
            escaped == escaped_at(cs@, q + 1, i as int),
            forall|k: int| q + 1 <= k < i ==> !#[trigger] closing_quote(cs@, q + 1, k),
        decreases cs.len() - i,
    {
        let c = cs[i];
        assert(escaped_at(cs@, q + 1, i + 1) == (!escaped && c == '\\'));
        if escaped {
            escaped = false;
        } else if c == '\\' {
            escaped = true;
        } else if c == '"' {
            proof {
                reveal(quoted_end);
                let ghost w = choose|j: int|
                    #[trigger] closing_quote(cs@, q + 1, j) && forall|k: int|
                        q + 1 <= k < j ==> !#[trigger] closing_quote(cs@, q + 1, k);
                assert(closing_quote(cs@, q + 1, i as int));
                if w < i {
                    assert(!closing_quote(cs@, q + 1, w));
                }
                if i < w {
                    assert(!closing_quote(cs@, q + 1, i as int));
                }
            }
            return Some(i);
        }
        i = i + 1;
    }
    assert forall|j: int| !#[trigger] closing_quote(cs@, q + 1, j) by {
        if q + 1 <= j < i {
        }
    }
    reveal(quoted_end);
    None
}

/// Removes KiCad backslash escapes: a backslash keeps the character after it.
pub open spec fn unescape(s: Seq<char>) -> Seq<char>
    decreases s.len(),
{
    if s.len() == 0 {
        Seq::empty()
    } else if s[0] == '\\' {
        if s.len() >= 2 {
            seq![s[1]] + unescape(s.skip(2))
        } else {
            Seq::empty()
        }
    } else {
        seq![s[0]] + unescape(s.skip(1))
    }
}

/// Escapes backslashes and quotes for a KiCad string body.
pub open spec fn escape_quotes(s: Seq<char>) -> Seq<char>
    decreases s.len(),
{
    if s.len() == 0 {
        Seq::empty()
    } else if s[0] == '\\' || s[0] == '"' {
        seq!['\\', s[0]] + escape_quotes(s.skip(1))
    } else {
        seq![s[0]] + escape_quotes(s.skip(1))
    }
}

proof fn lemma_unescape_append(a: Seq<char>, b: Seq<char>)
    requires
        unescape_complete(a),
    ensures
        unescape(a + b) == unescape(a) + unescape(b),
    decreases a.len(),
{
    if a.len() == 0 {
        assert(a + b == b);
    } else if a[0] == '\\' {
        assert((a + b).skip(2) == a.skip(2) + b);
        lemma_unescape_append(a.skip(2), b);
        assert(seq![a[1]] + (unescape(a.skip(2)) + unescape(b)) == (seq![a[1]] + unescape(
            a.skip(2),
        )) + unescape(b));
    } else {
        assert((a + b).skip(1) == a.skip(1) + b);
        lemma_unescape_append(a.skip(1), b);
        assert(seq![a[0]] + (unescape(a.skip(1)) + unescape(b)) == (seq![a[0]] + unescape(
            a.skip(1),
        )) + unescape(b));
    }
}

/// `s` ends outside an escape: no dangling backslash.
pub open spec fn unescape_complete(s: Seq<char>) -> bool
    decreases s.len(),
{
    if s.len() == 0 {
        true
    } else if s[0] == '\\' {
        s.len() >= 2 && unescape_complete(s.skip(2))
    } else {
        unescape_complete(s.skip(1))
    }
}

proof fn lemma_escape_complete(s: Seq<char>)
    ensures
        unescape_complete(escape_quotes(s)),
        unescape(escape_quotes(s)) == s,
    decreases s.len(),
{
    if s.len() > 0 {
        lemma_escape_complete(s.skip(1));
        let e = escape_quotes(s);
        if s[0] == '\\' || s[0] == '"' {
            assert(e.skip(2) == escape_quotes(s.skip(1)));
        } else {
            assert(e.skip(1) == escape_quotes(s.skip(1)));
        }
        assert(seq![s[0]] + s.skip(1) == s);
    }
}

/// Reading back an escaped KiCad string gives the original text.
pub proof fn law_unescape_inverts_escape(s: Seq<char>)
    ensures
        unescape(escape_quotes(s)) == s,
{
    lemma_escape_complete(s);
}

/// Removes KiCad backslash escapes from `cs`.
pub fn unescape_chars(cs: &[char]) -> (r: Vec<char>)
    ensures
        r@ == unescape(cs@),
{
    let mut r: Vec<char> = Vec::new();
    let mut i: usize = 0;
    assert(cs@.skip(0) == cs@);
    assert(r@ + unescape(cs@) == unescape(cs@));
    while i < cs.len()
        invariant
            i <= cs.len(),
            r@ + unescape(cs@.skip(i as int)) == unescape(cs@),
        decreases cs.len() - i,
    {
        let ghost t = cs@.skip(i as int);
        if cs[i] == '\\' {
            if i + 1 < cs.len() {
                r.push(cs[i + 1]);
                assert(t.skip(2) == cs@.skip(i + 2));
                i = i + 2;
            } else {
                assert(unescape(t) == Seq::<char>::empty());
                assert(cs@.skip(cs.len() as int) == Seq::<char>::empty());
                i = cs.len();
                assert(r@ + unescape(cs@.skip(i as int)) == r@);
            }
        } else {
            r.push(cs[i]);
            assert(t.skip(1) == cs@.skip(i + 1));
            i = i + 1;
        }
    }
    assert(cs@.skip(i as int) == Seq::<char>::empty());
    assert(r@ + Seq::<char>::empty() == r@);
    r
}

/// Escapes backslashes and quotes of `cs` for a KiCad string body.
pub fn escape_quote_chars(cs: &[char]) -> (r: Vec<char>)
    ensures
        r@ == escape_quotes(cs@),
{
    let mut r: Vec<char> = Vec::new();
    let mut i: usize = 0;
    assert(cs@.skip(0) == cs@);
    assert(r@ + escape_quotes(cs@) == escape_quotes(cs@));
    while i < cs.len()
        invariant
            i <= cs.len(),
            r@ + escape_quotes(cs@.skip(i as int)) == escape_quotes(cs@),
        decreases cs.len() - i,
    {
        let ghost t = cs@.skip(i as int);
        assert(t.skip(1) == cs@.skip(i + 1));
        let c = cs[i];
        if c == '\\' || c == '"' {
            r.push('\\');
            r.push(c);
        } else {
            r.push(c);
        }
        i = i + 1;
    }
    assert(cs@.skip(i as int) == Seq::<char>::empty());
    assert(r@ + Seq::<char>::empty() == r@);
    r
}

/// Separator that may follow a block keyword.
pub open spec fn is_block_sep(c: char) -> bool {
    c == ' ' || c == '\n' || c == '\r' || c == '\t'
}

/// A block `(keyword` followed by a separator opens at `i`.
pub open spec fn block_keyword_at(s: Seq<char>, i: int, kw: Seq<char>) -> bool {
    &&& 0 <= i
    &&& i + 1 + kw.len() < s.len()
    &&& s[i] == '('
    &&& occurs_at(s, i + 1, kw)
    &&& is_block_sep(s[i + 1 + kw.len()])
}

pub fn starts_block_keyword(cs: &[char], i: usize, kw: &[char]) -> (r: bool)
    ensures
        r == block_keyword_at(cs@, i as int, kw@),
{
    if i >= cs.len() || kw.len() >= cs.len() - i - 1 {
        return false;
    }
    if cs[i] != '(' {
        return false;
    }
    if !occurs_at_exec(cs, i + 1, kw) {
        return false;
    }
    let c = cs[i + 1 + kw.len()];
    c == ' ' || c == '\n' || c == '\r' || c == '\t'
}

/// The first `"` at or after `from`.
#[verifier::opaque]
pub open spec fn first_quote_from(s: Seq<char>, from: int) -> Option<int> {
    if exists|j: int| from <= j < s.len() && s[j] == '"' {
        Some(
            choose|j: int|
                from <= j < s.len() && s[j] == '"' && forall|k: int| from <= k < j ==> s[k] != '"',
        )
    } else {
        None
    }
}

pub fn find_quote_from(cs: &[char], from: usize) -> (r: Option<usize>)
    requires
        from <= cs.len(),
    ensures
        r matches Some(j) ==> first_quote_from(cs@, from as int) == Some(j as int) && from <= j
            < cs.len(),
        r is None ==> first_quote_from(cs@, from as int) is None,
{
    let mut i = from;
    while i < cs.len()
        invariant
            from <= i <= cs.len(),
            forall|k: int| from <= k < i ==> cs@[k] != '"',
        decreases cs.len() - i,
    {
        if cs[i] == '"' {
            proof {
                reveal(first_quote_from);
                let w = choose|j: int|
                    from <= j < cs@.len() && cs@[j] == '"' && forall|k: int|
                        from <= k < j ==> cs@[k] != '"';
                if w < i {
                }
                if i < w {
                }
            }
            return Some(i);
        }
        i = i + 1;
    }
    reveal(first_quote_from);
    None
}

/// Body range of the string that follows `(keyword` at `start`, as in `(symbol "NAME"`.
pub open spec fn string_after_keyword(s: Seq<char>, start: int, kw: Seq<char>) -> Option<(int, int)> {
    if occurs_at(s, start, seq!['('] + kw) {
        match first_quote_from(s, start + 1 + kw.len()) {
            Some(q) => match quoted_end(s, q) {
                Some(e) => Some((q + 1, e)),
                None => None,
            },
            None => None,
        }
    } else {
        None
    }
}

pub fn string_after_keyword_range(cs: &[char], start: usize, kw: &[char]) -> (r: Option<
    (usize, usize),
>)
    requires
        start <= cs.len(),
    ensures
        r matches Some((a, b)) ==> string_after_keyword(cs@, start as int, kw@) == Some(
            (a as int, b as int),
        ) && a <= b <= cs.len(),
        r is None ==> string_after_keyword(cs@, start as int, kw@) is None,
{
    let mut prefix: Vec<char> = Vec::new();
    prefix.push('(');
    extend_chars(&mut prefix, kw);
    assert(prefix@ == seq!['('] + kw@);
    if !occurs_at_exec(cs, start, prefix.as_slice()) {
        return None;
    }
    let content_start = start + prefix.len();
    match find_quote_from(cs, content_start) {
        Some(q) => match quoted_string_end(cs, q) {
            Some(e) => Some((q + 1, e)),
            None => None,
        },
        None => None,
    }
}

/// The unescaped string after `(keyword` at the very start of `block`.
pub open spec fn head_string(s: Seq<char>, kw: Seq<char>) -> Option<Seq<char>> {
    match string_after_keyword(s, 0, kw) {
        Some((a, b)) => Some(unescape(s.subrange(a, b))),
        None => None,
    }
}

pub fn head_string_after_keyword(cs: &[char], kw: &[char]) -> (r: Option<Vec<char>>)
    ensures
        r matches Some(v) ==> head_string(cs@, kw@) == Some(v@),
        r is None ==> head_string(cs@, kw@) is None,
{
    match string_after_keyword_range(cs, 0, kw) {
        Some((a, b)) => {
            let body = slice_range(cs, a, b);
            Some(unescape_chars(body.as_slice()))
        },
        None => None,
    }
}

/// A copy of `cs[a..b]`.
pub fn slice_range(cs: &[char], a: usize, b: usize) -> (r: Vec<char>)
    requires
        a <= b <= cs.len(),
    ensures
        r@ == cs@.subrange(a as int, b as int),
{
    let mut r: Vec<char> = Vec::new();
    let mut i = a;
    while i < b
        invariant
            a <= i <= b <= cs.len(),
            r@ == cs@.subrange(a as int, i as int),
        decreases b - i,
    {
        r.push(cs[i]);
        i = i + 1;
        assert(cs@.subrange(a as int, i as int) == cs@.subrange(a as int, i - 1).push(cs@[i - 1]));
    }
    r
}

/// The string bodies found from `i` on, at most `limit` of them; scanning ends at the
/// first quote that is never closed.
pub open spec fn quoted_ranges_from(s: Seq<char>, i: int, limit: nat) -> Seq<(int, int)>
    decreases limit, s.len() - i,
{
    if limit == 0 || i < 0 || i >= s.len() {
        Seq::empty()
    } else if s[i] != '"' {
        quoted_ranges_from(s, i + 1, limit)
    } else {
        match quoted_end(s, i) {
            Some(e) => if e >= i + 1 {
                seq![(i + 1, e)] + quoted_ranges_from(s, e + 1, (limit - 1) as nat)
            } else {
                Seq::empty()
            },
            None => Seq::empty(),
        }
    }
}

/// A predicate that holds somewhere at or above `lo` holds at a least such point.
pub proof fn lemma_least(p: spec_fn(int) -> bool, lo: int, j: int)
    requires
        lo <= j,
        p(j),
    ensures
        exists|m: int| lo <= m <= j && #[trigger] p(m) && forall|k: int| lo <= k < m ==> !#[trigger] p(k),
    decreases j - lo,
{
    if exists|k: int| lo <= k < j && #[trigger] p(k) {
        let k = choose|k: int| lo <= k < j && #[trigger] p(k);
        lemma_least(p, lo, k);
    } else {
        assert(lo <= j <= j && p(j) && forall|k: int| lo <= k < j ==> !#[trigger] p(k));
    }
}

proof fn lemma_quoted_end_after(s: Seq<char>, q: int)
    ensures
        quoted_end(s, q) matches Some(e) ==> q + 1 <= e < s.len(),
{
    reveal(quoted_end);
    if exists|j: int| #[trigger] closing_quote(s, q + 1, j) {
        let j = choose|j: int| #[trigger] closing_quote(s, q + 1, j);
        let p = |k: int| closing_quote(s, q + 1, k);
        lemma_least(p, q + 1, j);
        let m = choose|m: int| q + 1 <= m <= j && #[trigger] p(m) && forall|k: int| q + 1 <= k < m ==> !#[trigger] p(k);
        assert forall|k: int| q + 1 <= k < m implies !#[trigger] closing_quote(s, q + 1, k) by {
            assert(!p(k));
        }
        assert(closing_quote(s, q + 1, m));
    }
}

/// The first `limit` quoted string bodies of `cs`, as ranges.
pub fn quoted_string_ranges(cs: &[char], limit: usize) -> (r: Vec<(usize, usize)>)
    ensures
        r@.len() == quoted_ranges_from(cs@, 0, limit as nat).len(),
        forall|k: int|
            0 <= k < r@.len() ==> (r@[k].0 as int, r@[k].1 as int) == #[trigger] quoted_ranges_from(
                cs@,
                0,
                limit as nat,
            )[k] && r@[k].0 <= r@[k].1 <= cs@.len(),
{
    let mut r: Vec<(usize, usize)> = Vec::new();
    let mut i: usize = 0;
    let mut left: usize = limit;
    let ghost acc: Seq<(int, int)> = Seq::empty();
    let ghost total = quoted_ranges_from(cs@, 0, limit as nat);
    assert(acc + total == total);
    while i < cs.len() && left > 0
        invariant
            i <= cs.len(),
            left <= limit,
            total == quoted_ranges_from(cs@, 0, limit as nat),
            r@.len() == acc.len(),
            forall|k: int|
                0 <= k < r@.len() ==> (#[trigger] r@[k]).0 as int == acc[k].0 && r@[k].1 as int
                    == acc[k].1 && r@[k].0 <= r@[k].1 <= cs@.len(),
            acc + quoted_ranges_from(cs@, i as int, left as nat) == total,
        decreases left, cs.len() - i,
    {
        if cs[i] != '"' {
            assert(quoted_ranges_from(cs@, i as int, left as nat) == quoted_ranges_from(
                cs@,
                i + 1,
                left as nat,
            ));
            i = i + 1;
        } else {
            proof {
                lemma_quoted_end_after(cs@, i as int);
            }
            match quoted_string_end(cs, i) {
                Some(e) => {
                    let ghost tail = quoted_ranges_from(cs@, e + 1, (left - 1) as nat);
                    assert(quoted_ranges_from(cs@, i as int, left as nat) == seq![(i + 1, e as int)]
                        + tail);
                    r.push((i + 1, e));
                    proof {
                        assert(acc.push((i + 1, e as int)) + tail == acc + (seq![(i + 1, e as int)]
                            + tail));
                        acc = acc.push((i + 1, e as int));
                    }
                    i = e + 1;
                    left = left - 1;
                },
                None => {
                    proof {
                        assert(quoted_ranges_from(cs@, i as int, left as nat) == Seq::<
                            (int, int),
                        >::empty());
                        assert(acc + Seq::<(int, int)>::empty() == acc);
                        assert(acc == total);
                    }
                    return r;
                },
            }
        }
    }
    proof {
        assert(quoted_ranges_from(cs@, i as int, left as nat) == Seq::<(int, int)>::empty());
        assert(acc + Seq::<(int, int)>::empty() == acc);
        assert(acc == total);
    }
    r
}

} // verus!
