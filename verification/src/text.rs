//! Character-level text helpers shared by the parsers and formatters.
use vstd::prelude::*;

verus! {

/// Unicode `White_Space`, the set that `char::is_whitespace` and `str::trim` use.
pub open spec fn is_ws(c: char) -> bool {
    ||| ('\u{9}' <= c && c <= '\u{d}')
    ||| c == ' '
    ||| c == '\u{85}'
    ||| c == '\u{a0}'
    ||| c == '\u{1680}'
    ||| ('\u{2000}' <= c && c <= '\u{200a}')
    ||| c == '\u{2028}'
    ||| c == '\u{2029}'
    ||| c == '\u{202f}'
    ||| c == '\u{205f}'
    ||| c == '\u{3000}'
}

/// ASCII whitespace as `u8::is_ascii_whitespace` defines it.
pub open spec fn is_ascii_ws(c: char) -> bool {
    c == ' ' || c == '\t' || c == '\n' || c == '\u{c}' || c == '\r'
}

pub open spec fn is_digit(c: char) -> bool {
    '0' <= c && c <= '9'
}

pub open spec fn is_ascii_alpha(c: char) -> bool {
    ('a' <= c && c <= 'z') || ('A' <= c && c <= 'Z')
}

pub open spec fn is_ascii_alnum(c: char) -> bool {
    is_digit(c) || is_ascii_alpha(c)
}

pub open spec fn is_hex_digit(c: char) -> bool {
    is_digit(c) || ('a' <= c && c <= 'f') || ('A' <= c && c <= 'F')
}

pub open spec fn upper(c: char) -> char {
    if 'a' <= c && c <= 'z' {
        ((c as u32) - 32) as char
    } else {
        c
    }
}

pub open spec fn lower(c: char) -> char {
    if 'A' <= c && c <= 'Z' {
        ((c as u32) + 32) as char
    } else {
        c
    }
}

pub open spec fn upper_seq(s: Seq<char>) -> Seq<char> {
    s.map_values(|c: char| upper(c))
}

pub open spec fn lower_seq(s: Seq<char>) -> Seq<char> {
    s.map_values(|c: char| lower(c))
}

/// `s` with leading whitespace removed.
pub open spec fn trim_left(s: Seq<char>) -> Seq<char>
    decreases s.len(),
{
    if s.len() > 0 && is_ws(s[0]) {
        trim_left(s.drop_first())
    } else {
        s
    }
}

/// `s` with trailing whitespace removed.
pub open spec fn trim_right(s: Seq<char>) -> Seq<char>
    decreases s.len(),
{
    if s.len() > 0 && is_ws(s.last()) {
        trim_right(s.drop_last())
    } else {
        s
    }
}

/// `s` with whitespace removed at both ends, as `str::trim` does.
pub open spec fn trim(s: Seq<char>) -> Seq<char> {
    trim_right(trim_left(s))
}

/// The decimal digits of `n`, without leading zeros ("0" for zero).
pub open spec fn decimal(n: nat) -> Seq<char>
    decreases n,
{
    if n < 10 {
        seq![digit_char(n)]
    } else {
        decimal(n / 10).push(digit_char(n % 10))
    }
}

pub open spec fn digit_char(d: nat) -> char {
    ((d + 48) as u32) as char
}

/// `prefix` occurs at position `i` of `s`.
pub open spec fn occurs_at(s: Seq<char>, i: int, prefix: Seq<char>) -> bool {
    0 <= i && i + prefix.len() <= s.len() && s.subrange(i, i + prefix.len()) == prefix
}

pub open spec fn starts_with(s: Seq<char>, prefix: Seq<char>) -> bool {
    occurs_at(s, 0, prefix)
}

pub open spec fn ends_with(s: Seq<char>, suffix: Seq<char>) -> bool {
    occurs_at(s, s.len() - suffix.len(), suffix)
}

/// `needle` occurs somewhere in `s`.
pub open spec fn contains_seq(s: Seq<char>, needle: Seq<char>) -> bool {
    exists|i: int| occurs_at(s, i, needle)
}

/// The first position at which `needle` occurs in `s`, if any (what `str::find` returns).
#[verifier::opaque]
pub open spec fn first_occurrence(s: Seq<char>, needle: Seq<char>) -> Option<int> {
    if contains_seq(s, needle) {
        Some(choose|i: int| occurs_at(s, i, needle) && forall|j: int| 0 <= j < i ==> !occurs_at(s, j, needle))
    } else {
        None
    }
}

pub fn is_whitespace(c: char) -> (r: bool)
    ensures
        r == is_ws(c),
{
    ('\u{9}' <= c && c <= '\u{d}') || c == ' ' || c == '\u{85}' || c == '\u{a0}' || c == '\u{1680}'
        || ('\u{2000}' <= c && c <= '\u{200a}') || c == '\u{2028}' || c == '\u{2029}' || c
        == '\u{202f}' || c == '\u{205f}' || c == '\u{3000}'
}

pub fn is_ascii_whitespace(c: char) -> (r: bool)
    ensures
        r == is_ascii_ws(c),
{
    c == ' ' || c == '\t' || c == '\n' || c == '\u{c}' || c == '\r'
}

pub fn is_ascii_digit(c: char) -> (r: bool)
    ensures
        r == is_digit(c),
{
    '0' <= c && c <= '9'
}

pub fn is_ascii_alphanumeric(c: char) -> (r: bool)
    ensures
        r == is_ascii_alnum(c),
{
    ('0' <= c && c <= '9') || ('a' <= c && c <= 'z') || ('A' <= c && c <= 'Z')
}

pub fn to_upper(c: char) -> (r: char)
    ensures
        r == upper(c),
{
    if 'a' <= c && c <= 'z' {
        let v: u32 = (c as u32) - 32;
        assert(v == (c as u32) - 32);
        char_from_ascii(v)
    } else {
        c
    }
}

pub fn to_lower(c: char) -> (r: char)
    ensures
        r == lower(c),
{
    if 'A' <= c && c <= 'Z' {
        let v: u32 = (c as u32) + 32;
        char_from_ascii(v)
    } else {
        c
    }
}

/// The character with an ASCII code point.
fn char_from_ascii(v: u32) -> (r: char)
    requires
        v < 128,
    ensures
        r == v as char,
{
    let b: u8 = v as u8;
    b as char
}

/// The characters of a string slice, in order.
pub fn chars_of(s: &str) -> (r: Vec<char>)
    ensures
        r@ == s@,
{
    let mut r: Vec<char> = Vec::new();
    for c in it: s.chars()
        invariant
            r@ == it.seq().take(it.index() as int),
            it.seq() == s@,
    {
        r.push(c);
    }
    r
}

/// Appends one character to a string (`String::push`).
#[verifier::external_body]
pub fn push_char(s: &mut String, c: char)
    ensures
        final(s)@ == old(s)@.push(c),
{
    s.push(c);
}

/// A string holding exactly the given characters.
pub fn string_from(cs: &[char]) -> (r: String)
    ensures
        r@ == cs@,
{
    let mut r = String::new();
    let mut i: usize = 0;
    while i < cs.len()
        invariant
            i <= cs.len(),
            r@ == cs@.take(i as int),
        decreases cs.len() - i,
    {
        push_char(&mut r, cs[i]);
        i = i + 1;
        assert(cs@.take(i as int) == cs@.take((i - 1) as int).push(cs@[i - 1]));
    }
    assert(cs@.take(cs.len() as int) == cs@);
    r
}

/// The characters `cs[start..end]` as a string.
pub fn string_of_range(cs: &[char], start: usize, end: usize) -> (r: String)
    requires
        start <= end <= cs.len(),
    ensures
        r@ == cs@.subrange(start as int, end as int),
{
    let mut r = String::new();
    let mut i: usize = start;
    while i < end
        invariant
            start <= i <= end <= cs.len(),
            r@ == cs@.subrange(start as int, i as int),
        decreases end - i,
    {
        push_char(&mut r, cs[i]);
        i = i + 1;
        assert(cs@.subrange(start as int, i as int) == cs@.subrange(start as int, i - 1).push(
            cs@[i - 1],
        ));
    }
    r
}

/// Appends the characters of `cs` to `v`.
pub fn extend_chars(v: &mut Vec<char>, cs: &[char])
    ensures
        final(v)@ == old(v)@ + cs@,
{
    let mut i: usize = 0;
    while i < cs.len()
        invariant
            i <= cs.len(),
            v@ == old(v)@ + cs@.take(i as int),
        decreases cs.len() - i,
    {
        v.push(cs[i]);
        i = i + 1;
        assert(cs@.take(i as int) == cs@.take(i - 1).push(cs@[i - 1]));
    }
    assert(cs@.take(cs.len() as int) == cs@);
}

/// Appends the characters of `s` to `v`.
pub fn extend_str(v: &mut Vec<char>, s: &str)
    ensures
        final(v)@ == old(v)@ + s@,
{
    let cs = chars_of(s);
    extend_chars(v, cs.as_slice());
}

pub fn chars_eq(a: &[char], b: &[char]) -> (r: bool)
    ensures
        r == (a@ == b@),
{
    if a.len() != b.len() {
        return false;
    }
    let mut i: usize = 0;
    while i < a.len()
        invariant
            a.len() == b.len(),
            i <= a.len(),
            forall|k: int| 0 <= k < i ==> a@[k] == b@[k],
        decreases a.len() - i,
    {
        if a[i] != b[i] {
            return false;
        }
        i = i + 1;
    }
    assert(a@ =~= b@);
    true
}

pub fn str_eq(a: &str, b: &str) -> (r: bool)
    ensures
        r == (a@ == b@),
{
    let ac = chars_of(a);
    let bc = chars_of(b);
    chars_eq(ac.as_slice(), bc.as_slice())
}

/// Whether `pat` occurs in `cs` at position `i`.
pub fn occurs_at_exec(cs: &[char], i: usize, pat: &[char]) -> (r: bool)
    ensures
        r == occurs_at(cs@, i as int, pat@),
{
    if i > cs.len() || pat.len() > cs.len() - i {
        return false;
    }
    let mut k: usize = 0;
    while k < pat.len()
        invariant
            i + pat.len() <= cs.len(),
            k <= pat.len(),
            forall|j: int| 0 <= j < k ==> cs@[i + j] == pat@[j],
        decreases pat.len() - k,
    {
        if cs[i + k] != pat[k] {
            assert(cs@.subrange(i as int, i + pat@.len())[k as int] != pat@[k as int]);
            return false;
        }
        k = k + 1;
    }
    assert(cs@.subrange(i as int, i + pat@.len()) =~= pat@);
    true
}

pub fn starts_with_chars(cs: &[char], pat: &[char]) -> (r: bool)
    ensures
        r == starts_with(cs@, pat@),
{
    occurs_at_exec(cs, 0, pat)
}

pub fn ends_with_chars(cs: &[char], pat: &[char]) -> (r: bool)
    ensures
        r == ends_with(cs@, pat@),
{
    if pat.len() > cs.len() {
        return false;
    }
    occurs_at_exec(cs, cs.len() - pat.len(), pat)
}

/// The first position of `pat` in `cs` at or after `from`, as `str::find` on a suffix.
pub fn find_from(cs: &[char], from: usize, pat: &[char]) -> (r: Option<usize>)
    requires
        from <= cs.len(),
    ensures
        match r {
            Some(i) => from <= i && occurs_at(cs@, i as int, pat@) && forall|j: int|
                from <= j < i ==> !occurs_at(cs@, j, pat@),
            None => forall|j: int| from <= j ==> !occurs_at(cs@, j, pat@),
        },
{
    let mut i: usize = from;
    loop
        invariant
            from <= i <= cs.len(),
            forall|j: int| from <= j < i ==> !occurs_at(cs@, j, pat@),
        decreases cs.len() - i,
    {
        if occurs_at_exec(cs, i, pat) {
            return Some(i);
        }
        if i == cs.len() {
            return None;
        }
        i = i + 1;
    }
}

/// Whether `pat` occurs anywhere in `cs` (`str::contains`).
pub fn contains_chars(cs: &[char], pat: &[char]) -> (r: bool)
    ensures
        r == contains_seq(cs@, pat@),
{
    match find_from(cs, 0, pat) {
        Some(i) => true,
        None => {
            assert forall|j: int| !occurs_at(cs@, j, pat@) by {
                if j < 0 {
                }
            }
            false
        },
    }
}

proof fn lemma_trim_left_suffix(s: Seq<char>)
    ensures
        exists|a: int| 0 <= a <= s.len() && trim_left(s) == s.subrange(a, s.len() as int) && (
        forall|k: int| 0 <= k < a ==> is_ws(#[trigger] s[k])),
    decreases s.len(),
{
    if s.len() > 0 && is_ws(s[0]) {
        lemma_trim_left_suffix(s.drop_first());
        let a = choose|a: int|
            0 <= a <= s.drop_first().len() && trim_left(s.drop_first()) == s.drop_first().subrange(
                a,
                s.drop_first().len() as int,
            ) && (forall|k: int| 0 <= k < a ==> is_ws(#[trigger] s.drop_first()[k]));
        assert(s.drop_first().subrange(a, s.drop_first().len() as int) == s.subrange(
            a + 1,
            s.len() as int,
        ));
        assert forall|k: int| 0 <= k < a + 1 implies is_ws(#[trigger] s[k]) by {
            if k > 0 {
                assert(s[k] == s.drop_first()[k - 1]);
            }
        }
    } else {
        assert(s.subrange(0, s.len() as int) == s);
    }
}

/// The index of the first character of `cs` that is not whitespace (or `cs.len()`).
pub fn trim_left_index(cs: &[char]) -> (r: usize)
    ensures
        r <= cs.len(),
        trim_left(cs@) == cs@.subrange(r as int, cs@.len() as int),
{
    let mut i: usize = 0;
    assert(cs@.subrange(0, cs@.len() as int) == cs@);
    while i < cs.len() && is_whitespace(cs[i])
        invariant
            i <= cs.len(),
            trim_left(cs@) == trim_left(cs@.subrange(i as int, cs@.len() as int)),
        decreases cs.len() - i,
    {
        let ghost t = cs@.subrange(i as int, cs@.len() as int);
        assert(t.drop_first() == cs@.subrange(i + 1, cs@.len() as int));
        i = i + 1;
    }
    i
}

/// The end of `cs[start..]` once trailing whitespace is dropped.
pub fn trim_right_index(cs: &[char], start: usize) -> (r: usize)
    requires
        start <= cs.len(),
    ensures
        start <= r <= cs.len(),
        trim_right(cs@.subrange(start as int, cs@.len() as int)) == cs@.subrange(
            start as int,
            r as int,
        ),
{
    let mut e: usize = cs.len();
    while e > start && is_whitespace(cs[e - 1])
        invariant
            start <= e <= cs.len(),
            trim_right(cs@.subrange(start as int, cs@.len() as int)) == trim_right(
                cs@.subrange(start as int, e as int),
            ),
        decreases e,
    {
        let ghost t = cs@.subrange(start as int, e as int);
        assert(t.drop_last() == cs@.subrange(start as int, e - 1));
        e = e - 1;
    }
    e
}

/// The bounds of `cs` once surrounding whitespace is dropped.
pub fn trim_bounds(cs: &[char]) -> (r: (usize, usize))
    ensures
        r.0 <= r.1 <= cs.len(),
        trim(cs@) == cs@.subrange(r.0 as int, r.1 as int),
{
    let a = trim_left_index(cs);
    let b = trim_right_index(cs, a);
    (a, b)
}

/// `cs` with surrounding whitespace removed.
pub fn trim_chars(cs: &[char]) -> (r: Vec<char>)
    ensures
        r@ == trim(cs@),
{
    let (a, b) = trim_bounds(cs);
    let mut r: Vec<char> = Vec::new();
    let mut i = a;
    while i < b
        invariant
            a <= i <= b <= cs.len(),
            r@ == cs@.subrange(a as int, i as int),
        decreases b - i,
    {
        r.push(cs[i]);
        i = i + 1;
        assert(cs@.subrange(a as int, i as int) == cs@.subrange(a as int, i - 1).push(cs@[i - 1]));
    }
    r
}

/// `s` with surrounding whitespace removed (`str::trim`).
pub fn trim_str(s: &str) -> (r: String)
    ensures
        r@ == trim(s@),
{
    let cs = chars_of(s);
    let (a, b) = trim_bounds(cs.as_slice());
    string_of_range(cs.as_slice(), a, b)
}

/// ASCII letters of `cs` upper-cased (`to_ascii_uppercase`).
pub fn upper_chars(cs: &[char]) -> (r: Vec<char>)
    ensures
        r@ == upper_seq(cs@),
{
    let mut r: Vec<char> = Vec::new();
    let mut i: usize = 0;
    while i < cs.len()
        invariant
            i <= cs.len(),
            r@ == upper_seq(cs@.take(i as int)),
        decreases cs.len() - i,
    {
        r.push(to_upper(cs[i]));
        i = i + 1;
        assert(upper_seq(cs@.take(i as int)) =~= upper_seq(cs@.take(i - 1)).push(upper(cs@[i - 1])));
    }
    assert(cs@.take(cs.len() as int) == cs@);
    r
}

/// ASCII letters of `cs` lower-cased (`to_ascii_lowercase`).
pub fn lower_chars(cs: &[char]) -> (r: Vec<char>)
    ensures
        r@ == lower_seq(cs@),
{
    let mut r: Vec<char> = Vec::new();
    let mut i: usize = 0;
    while i < cs.len()
        invariant
            i <= cs.len(),
            r@ == lower_seq(cs@.take(i as int)),
        decreases cs.len() - i,
    {
        r.push(to_lower(cs[i]));
        i = i + 1;
        assert(lower_seq(cs@.take(i as int)) =~= lower_seq(cs@.take(i - 1)).push(lower(cs@[i - 1])));
    }
    assert(cs@.take(cs.len() as int) == cs@);
    r
}

/// The decimal digits of `n`.
pub fn decimal_chars(n: u64) -> (r: Vec<char>)
    ensures
        r@ == decimal(n as nat),
    decreases n,
{
    if n < 10 {
        let mut r: Vec<char> = Vec::new();
        r.push(digit(n));
        assert(r@ == seq![digit_char(n as nat)]);
        r
    } else {
        let mut r = decimal_chars(n / 10);
        r.push(digit(n % 10));
        r
    }
}

fn digit(d: u64) -> (r: char)
    requires
        d < 10,
    ensures
        r == digit_char(d as nat),
{
    let v: u32 = (d as u32) + 48;
    char_from_ascii(v)
}

/// `n` written in decimal.
pub fn decimal_string(n: u64) -> (r: String)
    ensures
        r@ == decimal(n as nat),
{
    let cs = decimal_chars(n);
    string_from(cs.as_slice())
}


/// The pieces of `s[..n]` between occurrences of `sep` (as `str::split` yields them).
pub open spec fn split_prefix(s: Seq<char>, sep: char, n: int) -> Seq<Seq<char>>
    decreases n,
{
    if n <= 0 {
        seq![Seq::empty()]
    } else {
        let p = split_prefix(s, sep, n - 1);
        if s[n - 1] == sep {
            p.push(Seq::empty())
        } else {
            p.update(p.len() - 1, p.last().push(s[n - 1]))
        }
    }
}

/// The pieces of `s` between occurrences of `sep`.
pub open spec fn split_on(s: Seq<char>, sep: char) -> Seq<Seq<char>> {
    split_prefix(s, sep, s.len() as int)
}

pub proof fn lemma_split_prefix_nonempty(s: Seq<char>, sep: char, n: int)
    ensures
        split_prefix(s, sep, n).len() >= 1,
    decreases n,
{
    if n > 0 {
        lemma_split_prefix_nonempty(s, sep, n - 1);
    }
}

proof fn lemma_split_prefix_first(s: Seq<char>, sep: char, n: int)
    requires
        0 <= n <= s.len(),
    ensures
        split_prefix(s, sep, n).len() >= 1,
        split_prefix(s, sep, n).len() == 1 ==> split_prefix(s, sep, n)[0] == s.take(n),
        split_prefix(s, sep, n).len() >= 2 ==> {
            let f = split_prefix(s, sep, n)[0];
            f.len() < n && s[f.len() as int] == sep && s.take(f.len() as int) == f
        },
    decreases n,
{
    lemma_split_prefix_nonempty(s, sep, n);
    if n > 0 {
        lemma_split_prefix_first(s, sep, n - 1);
        let p = split_prefix(s, sep, n - 1);
        if p.len() == 1 && s[n - 1] != sep {
            assert(s.take(n) =~= s.take(n - 1).push(s[n - 1]));
        }
    }
}

/// When `s` holds `sep`, the first piece is the text before the first `sep`.
pub proof fn lemma_split_first_piece(s: Seq<char>, sep: char)
    ensures
        split_on(s, sep).len() >= 1,
        split_on(s, sep).len() == 1 ==> split_on(s, sep)[0] == s,
        split_on(s, sep).len() >= 2 ==> {
            let f = split_on(s, sep)[0];
            f.len() < s.len() && s[f.len() as int] == sep && s.take(f.len() as int) == f
        },
{
    lemma_split_prefix_first(s, sep, s.len() as int);
    assert(s.take(s.len() as int) =~= s);
}

/// The pieces of `cs` between occurrences of `sep`.
pub fn split_chars(cs: &[char], sep: char) -> (r: Vec<Vec<char>>)
    ensures
        r@.len() == split_on(cs@, sep).len(),
        forall|k: int| 0 <= k < r@.len() ==> (#[trigger] r@[k])@ == split_on(cs@, sep)[k],
{
    let mut done: Vec<Vec<char>> = Vec::new();
    let mut cur: Vec<char> = Vec::new();
    let mut i: usize = 0;
    let ghost mut parts: Seq<Seq<char>> = Seq::empty();
    assert(parts.push(cur@) =~= split_prefix(cs@, sep, 0));
    while i < cs.len()
        invariant
            i <= cs.len(),
            done@.len() == parts.len(),
            forall|k: int| 0 <= k < done@.len() ==> (#[trigger] done@[k])@ == parts[k],
            parts.push(cur@) == split_prefix(cs@, sep, i as int),
        decreases cs.len() - i,
    {
        proof {
            lemma_split_prefix_nonempty(cs@, sep, i as int);
        }
        if cs[i] == sep {
            proof {
                parts = parts.push(cur@);
            }
            done.push(cur);
            cur = Vec::new();
        } else {
            cur.push(cs[i]);
        }
        i = i + 1;
        assert(parts.push(cur@) =~= split_prefix(cs@, sep, i as int));
    }
    proof {
        parts = parts.push(cur@);
    }
    done.push(cur);
    done
}


/// `line` without one trailing carriage return.
pub open spec fn strip_cr(line: Seq<char>) -> Seq<char> {
    if line.len() > 0 && line.last() == '\r' {
        line.drop_last()
    } else {
        line
    }
}

/// The lines of `s`, as `str::lines` gives them: split at each newline, with a carriage
/// return before a newline dropped, and no empty line after a final newline.
pub open spec fn lines(s: Seq<char>) -> Seq<Seq<char>> {
    let parts = split_on(s, '\n');
    let k = parts.len() - 1;
    let body = parts.take(k).map_values(|p: Seq<char>| strip_cr(p));
    if parts[k].len() == 0 {
        body
    } else {
        body.push(parts[k])
    }
}

/// The lines of `cs` (see `lines`).
pub fn lines_of(cs: &[char]) -> (r: Vec<Vec<char>>)
    ensures
        r@.len() == lines(cs@).len(),
        forall|k: int| 0 <= k < r@.len() ==> (#[trigger] r@[k])@ == lines(cs@)[k],
{
    let parts = split_chars(cs, '\n');
    let ghost sp = split_on(cs@, '\n');
    proof {
        lemma_split_prefix_nonempty(cs@, '\n', cs@.len() as int);
    }
    let last = parts.len() - 1;
    let ghost body = sp.take(last as int).map_values(|p: Seq<char>| strip_cr(p));
    let mut out: Vec<Vec<char>> = Vec::new();
    let mut k: usize = 0;
    while k < last
        invariant
            k <= last,
            last == parts@.len() - 1,
            parts@.len() == sp.len(),
            forall|j: int| 0 <= j < parts@.len() ==> (#[trigger] parts@[j])@ == sp[j],
            body == sp.take(last as int).map_values(|p: Seq<char>| strip_cr(p)),
            out@.len() == k,
            forall|j: int| 0 <= j < k ==> (#[trigger] out@[j])@ == body[j],
        decreases last - k,
    {
        let p = &parts[k];
        let mut line: Vec<char> = Vec::new();
        let n = p.len();
        let keep = if n > 0 && p[n - 1] == '\r' { n - 1 } else { n };
        let mut j: usize = 0;
        while j < keep
            invariant
                j <= keep <= p@.len(),
                line@ == p@.take(j as int),
            decreases keep - j,
        {
            line.push(p[j]);
            j = j + 1;
            assert(line@ =~= p@.take(j as int));
        }
        assert(line@ =~= strip_cr(p@));
        out.push(line);
        k = k + 1;
    }
    if parts[last].len() > 0 {
        let mut tail: Vec<char> = Vec::new();
        extend_chars(&mut tail, parts[last].as_slice());
        out.push(tail);
    }
    out
}

/// The texts of `ls` joined with newlines between them.
pub open spec fn join_lines(ls: Seq<Seq<char>>) -> Seq<char>
    decreases ls.len(),
{
    if ls.len() == 0 {
        Seq::empty()
    } else if ls.len() == 1 {
        ls[0]
    } else {
        join_lines(ls.drop_last()) + seq!['\n'] + ls.last()
    }
}

/// The texts of `ls` joined with newlines between them.
pub fn join_lines_chars(ls: &[Vec<char>]) -> (r: Vec<char>)
    ensures
        r@ == join_lines(ls@.map_values(|l: Vec<char>| l@)),
{
    let ghost lv = ls@.map_values(|l: Vec<char>| l@);
    let mut out: Vec<char> = Vec::new();
    let mut k: usize = 0;
    while k < ls.len()
        invariant
            k <= ls.len(),
            lv == ls@.map_values(|l: Vec<char>| l@),
            out@ == join_lines(lv.take(k as int)),
        decreases ls.len() - k,
    {
        if k > 0 {
            out.push('\n');
        }
        extend_chars(&mut out, ls[k].as_slice());
        k = k + 1;
        assert(lv.take(k as int).drop_last() =~= lv.take(k - 1));
    }
    assert(lv.take(ls.len() as int) =~= lv);
    out
}


/// `a` sorts before `b` as `str`'s ordering has it: by the first character in which they
/// differ, a proper prefix first (UTF-8 byte order is character order).
pub open spec fn seq_lt(a: Seq<char>, b: Seq<char>) -> bool
    decreases a.len(),
{
    if a.len() == 0 {
        b.len() > 0
    } else if b.len() == 0 {
        false
    } else if a[0] != b[0] {
        a[0] < b[0]
    } else {
        seq_lt(a.skip(1), b.skip(1))
    }
}

/// Whether `a` sorts before `b` (see `seq_lt`).
pub fn chars_lt(a: &[char], b: &[char]) -> (r: bool)
    ensures
        r == seq_lt(a@, b@),
{
    let mut i: usize = 0;
    assert(a@.skip(0) =~= a@);
    assert(b@.skip(0) =~= b@);
    while i < a.len() && i < b.len() && a[i] == b[i]
        invariant
            i <= a.len(),
            i <= b.len(),
            seq_lt(a@, b@) == seq_lt(a@.skip(i as int), b@.skip(i as int)),
        decreases a.len() - i,
    {
        assert(a@.skip(i as int).skip(1) =~= a@.skip(i + 1));
        assert(b@.skip(i as int).skip(1) =~= b@.skip(i + 1));
        i = i + 1;
    }
    if i == a.len() {
        i < b.len()
    } else if i == b.len() {
        false
    } else {
        assert(a@.skip(i as int)[0] == a@[i as int]);
        assert(b@.skip(i as int)[0] == b@[i as int]);
        a[i] < b[i]
    }
}

/// Whether the string `a` sorts before `b`.
pub fn str_lt(a: &str, b: &str) -> (r: bool)
    ensures
        r == seq_lt(a@, b@),
{
    let ac = chars_of(a);
    let bc = chars_of(b);
    chars_lt(ac.as_slice(), bc.as_slice())
}


/// The first position of `pat` in `cs`, as `str::find` gives it.
pub fn find_first(cs: &[char], pat: &[char]) -> (r: Option<usize>)
    ensures
        match r {
            Some(i) => first_occurrence(cs@, pat@) == Some(i as int) && occurs_at(cs@, i as int, pat@),
            None => first_occurrence(cs@, pat@) is None,
        },
{
    let r = find_from(cs, 0, pat);
    proof {
        reveal(first_occurrence);
        match r {
            Some(p) => {
                let w = choose|i: int|
                    occurs_at(cs@, i, pat@) && forall|j: int| 0 <= j < i ==> !occurs_at(cs@, j, pat@);
                if w < p {
                    assert(w >= 0);
                }
            },
            None => {
                assert forall|j: int| !occurs_at(cs@, j, pat@) by {
                    if j < 0 {
                    }
                }
            },
        }
    }
    r
}

} // verus!
