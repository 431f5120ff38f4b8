//! Reading and editing KiCad symbol and footprint libraries that hold imported parts.
use vstd::prelude::*;
use crate::sexpr::{
    block_keyword_at, escape_quote_chars, escape_quotes, first_quote_from, find_quote_from,
    head_string, head_string_after_keyword, matching_paren_end, paren_group_end, quoted_end,
    quoted_ranges_from, quoted_string_end, quoted_string_ranges, slice_range,
    starts_block_keyword, string_after_keyword, string_after_keyword_range, unescape,
    unescape_chars,
};
use crate::text::{
    chars_eq, string_of_range, chars_of, contains_chars, contains_seq, extend_chars, find_from, first_occurrence,
    is_ascii_digit, is_ascii_whitespace, is_ascii_ws, is_digit, string_from, trim, trim_chars,
    upper, upper_chars, upper_seq, split_chars, split_on,
};

verus! {

/// A 3D model file that belongs to an imported part.
#[derive(Debug, Clone, PartialEq, Eq)]
pub struct ImportedModel {
    pub file_name: String,
    pub format: String,
    pub size_bytes: u64,
}

/// One symbol or footprint found in a scanned library.
#[derive(Debug, Clone, PartialEq, Eq)]
pub struct ImportedSymbol {
    pub library_key: String,
    pub lcsc_part: String,
    pub value: String,
    pub symbol_name: String,
    pub package: String,
    pub source_file: String,
    pub source_kind: String,
    pub editable: bool,
    pub model_available: bool,
    pub models: Vec<ImportedModel>,
}

/// A library location that was scanned.
#[derive(Debug, Clone, PartialEq, Eq)]
pub struct LibrarySource {
    pub path: String,
    pub kind: String,
    pub configured: bool,
}

/// Everything found by one library scan.
#[derive(Debug, Clone, PartialEq, Eq)]
pub struct ImportedSymbolsResponse {
    pub scanned_path: String,
    pub sources: Vec<LibrarySource>,
    pub items: Vec<ImportedSymbol>,
}

/// A request to rename a symbol and change its LCSC part.
#[derive(Debug, Clone, PartialEq, Eq)]
pub struct ImportedSymbolUpdateRequest {
    pub source_file: String,
    pub symbol_name: String,
    pub new_symbol_name: String,
    pub lcsc_part: String,
}

/// A request to delete a symbol together with its generated assets.
#[derive(Debug, Clone, PartialEq, Eq)]
pub struct ImportedSymbolDeleteRequest {
    pub source_file: String,
    pub symbol_name: String,
    pub lcsc_part: Option<String>,
}

/// A request for the bytes of one imported 3D model.
#[derive(Debug, Clone, PartialEq, Eq)]
pub struct ImportedModelRequest {
    pub source_file: String,
    pub lcsc_part: String,
    pub file_name: String,
}

/// A library file to be parsed, with how it was found.
#[derive(Debug, Clone, PartialEq, Eq)]
pub struct LibraryFile {
    pub path: String,
    pub source_file: String,
    pub source_kind: String,
    pub editable: bool,
}

pub open spec fn kw_symbol() -> Seq<char> {
    seq!['s', 'y', 'm', 'b', 'o', 'l']
}

pub open spec fn kw_property() -> Seq<char> {
    seq!['p', 'r', 'o', 'p', 'e', 'r', 't', 'y']
}

pub open spec fn kw_footprint() -> Seq<char> {
    seq!['f', 'o', 'o', 't', 'p', 'r', 'i', 'n', 't']
}

pub open spec fn name_lcsc_part() -> Seq<char> {
    seq!['L', 'C', 'S', 'C', ' ', 'P', 'a', 'r', 't']
}

pub open spec fn name_value() -> Seq<char> {
    seq!['V', 'a', 'l', 'u', 'e']
}

pub open spec fn name_package() -> Seq<char> {
    seq!['P', 'a', 'c', 'k', 'a', 'g', 'e']
}

pub open spec fn name_footprint() -> Seq<char> {
    seq!['F', 'o', 'o', 't', 'p', 'r', 'i', 'n', 't']
}

/// `(model `
pub open spec fn model_marker() -> Seq<char> {
    seq!['(', 'm', 'o', 'd', 'e', 'l', ' ']
}

/// `(fp_text value`
pub open spec fn fp_text_value_marker() -> Seq<char> {
    seq!['(', 'f', 'p', '_', 't', 'e', 'x', 't', ' ', 'v', 'a', 'l', 'u', 'e']
}

fn kw_symbol_chars() -> (r: Vec<char>)
    ensures
        r@ == kw_symbol(),
{
    let r = vec!['s', 'y', 'm', 'b', 'o', 'l'];
    assert(r@ == kw_symbol());
    r
}

fn kw_property_chars() -> (r: Vec<char>)
    ensures
        r@ == kw_property(),
{
    let r = vec!['p', 'r', 'o', 'p', 'e', 'r', 't', 'y'];
    assert(r@ == kw_property());
    r
}

fn kw_footprint_chars() -> (r: Vec<char>)
    ensures
        r@ == kw_footprint(),
{
    let r = vec!['f', 'o', 'o', 't', 'p', 'r', 'i', 'n', 't'];
    assert(r@ == kw_footprint());
    r
}

pub(crate) fn name_lcsc_part_chars() -> (r: Vec<char>)
    ensures
        r@ == name_lcsc_part(),
{
    let r = vec!['L', 'C', 'S', 'C', ' ', 'P', 'a', 'r', 't'];
    assert(r@ == name_lcsc_part());
    r
}

fn name_value_chars() -> (r: Vec<char>)
    ensures
        r@ == name_value(),
{
    let r = vec!['V', 'a', 'l', 'u', 'e'];
    assert(r@ == name_value());
    r
}

fn name_package_chars() -> (r: Vec<char>)
    ensures
        r@ == name_package(),
{
    let r = vec!['P', 'a', 'c', 'k', 'a', 'g', 'e'];
    assert(r@ == name_package());
    r
}

fn name_footprint_chars() -> (r: Vec<char>)
    ensures
        r@ == name_footprint(),
{
    let r = vec!['F', 'o', 'o', 't', 'p', 'r', 'i', 'n', 't'];
    assert(r@ == name_footprint());
    r
}

fn model_marker_chars() -> (r: Vec<char>)
    ensures
        r@ == model_marker(),
{
    let r = vec!['(', 'm', 'o', 'd', 'e', 'l', ' '];
    assert(r@ == model_marker());
    r
}

fn fp_text_value_marker_chars() -> (r: Vec<char>)
    ensures
        r@ == fp_text_value_marker(),
{
    let r = vec!['(', 'f', 'p', '_', 't', 'e', 'x', 't', ' ', 'v', 'a', 'l', 'u', 'e'];
    assert(r@ == fp_text_value_marker());
    r
}

/// Body range of the value of property `name` in `s`, searching from `i`: the first
/// `(property` block whose first string is `name` gives its second string.
pub open spec fn property_range_from(s: Seq<char>, i: int, name: Seq<char>) -> Option<(int, int)>
    decreases s.len() - i,
{
    if i < 0 || i >= s.len() {
        None
    } else if block_keyword_at(s, i, kw_property()) {
        match paren_group_end(s, i) {
            None => None,
            Some(end) => {
                let pb = s.subrange(i, end);
                let rs = quoted_ranges_from(pb, 0, 2);
                if rs.len() >= 2 && unescape(pb.subrange(rs[0].0, rs[0].1)) == name {
                    Some((i + rs[1].0, i + rs[1].1))
                } else if i < end <= s.len() {
                    property_range_from(s, end, name)
                } else {
                    None
                }
            },
        }
    } else {
        property_range_from(s, i + 1, name)
    }
}

/// The unescaped value of property `name`, if the block has one.
pub open spec fn property_of(s: Seq<char>, name: Seq<char>) -> Option<Seq<char>> {
    match property_range_from(s, 0, name) {
        Some((a, b)) => Some(unescape(s.subrange(a, b))),
        None => None,
    }
}

/// Body range of the value of property `name` inside `block`.
pub fn property_value_range(block: &[char], name: &[char]) -> (r: Option<(usize, usize)>)
    ensures
        r matches Some((a, b)) ==> property_range_from(block@, 0, name@) == Some((a as int, b as int))
            && a <= b <= block.len(),
        r is None ==> property_range_from(block@, 0, name@) is None,
{
    let kw = kw_property_chars();
    let mut i: usize = 0;
    while i < block.len()
        invariant
            i <= block.len(),
            kw@ == kw_property(),
            property_range_from(block@, 0, name@) == property_range_from(block@, i as int, name@),
        decreases block.len() - i,
    {
        if starts_block_keyword(block, i, kw.as_slice()) {
            proof {
                crate::sexpr::lemma_group_end_after(block@, i as int);
            }
            match matching_paren_end(block, i) {
                None => {
                    return None;
                },
                Some(end) => {
                    let pb = slice_range(block, i, end);
                    let ranges = quoted_string_ranges(pb.as_slice(), 2);
                    if ranges.len() >= 2 {
                        let (a0, b0) = ranges[0];
                        let (a1, b1) = ranges[1];
                        let first = slice_range(pb.as_slice(), a0, b0);
                        let first_text = unescape_chars(first.as_slice());
                        if chars_eq(first_text.as_slice(), name) {
                            return Some((i + a1, i + b1));
                        }
                    }
                    i = end;
                },
            }
        } else {
            i = i + 1;
        }
    }
    None
}

/// The unescaped value of property `name` inside `block`.
pub fn property_value(block: &[char], name: &[char]) -> (r: Option<Vec<char>>)
    ensures
        r matches Some(v) ==> property_of(block@, name@) == Some(v@),
        r is None ==> property_of(block@, name@) is None,
{
    match property_value_range(block, name) {
        Some((a, b)) => {
            let body = slice_range(block, a, b);
            Some(unescape_chars(body.as_slice()))
        },
        None => None,
    }
}

/// The text after the last `:` of `s`, or all of `s` when it has none.
pub open spec fn after_last_colon(s: Seq<char>) -> Seq<char>
    decreases s.len(),
{
    if s.len() == 0 {
        s
    } else if s.last() == ':' {
        Seq::empty()
    } else {
        after_last_colon(s.drop_last()).push(s.last())
    }
}

pub fn after_last_colon_chars(s: &[char]) -> (r: Vec<char>)
    ensures
        r@ == after_last_colon(s@),
{
    let mut start: usize = s.len();
    while start > 0 && s[start - 1] != ':'
        invariant
            start <= s.len(),
            forall|k: int| start <= k < s.len() ==> s@[k] != ':',
        decreases start,
    {
        start = start - 1;
    }
    proof {
        lemma_after_last_colon(s@, start as int);
    }
    slice_range(s, start, s.len())
}

proof fn lemma_after_last_colon(s: Seq<char>, start: int)
    requires
        0 <= start <= s.len(),
        forall|k: int| start <= k < s.len() ==> s[k] != ':',
        start == 0 || s[start - 1] == ':',
    ensures
        after_last_colon(s) == s.subrange(start, s.len() as int),
    decreases s.len(),
{
    if s.len() > start {
        lemma_after_last_colon(s.drop_last(), start);
        assert(s.drop_last().subrange(start, s.len() - 1).push(s.last()) == s.subrange(
            start,
            s.len() as int,
        ));
    } else if s.len() > 0 {
        assert(s.subrange(start, s.len() as int) == Seq::<char>::empty());
    }
}

/// The footprint name that a symbol block points at: its `Footprint` property without the
/// library prefix; `None` when absent or blank.
pub open spec fn footprint_name_of_block(s: Seq<char>) -> Option<Seq<char>> {
    match property_of(s, name_footprint()) {
        Some(f) => if trim(f).len() == 0 {
            None
        } else {
            Some(after_last_colon(trim(f)))
        },
        None => None,
    }
}

pub fn footprint_name_from_symbol_block(block: &[char]) -> (r: Option<Vec<char>>)
    ensures
        r matches Some(v) ==> footprint_name_of_block(block@) == Some(v@),
        r is None ==> footprint_name_of_block(block@) is None,
{
    let name = name_footprint_chars();
    match property_value(block, name.as_slice()) {
        Some(f) => {
            let t = trim_chars(f.as_slice());
            if t.len() == 0 {
                None
            } else {
                Some(after_last_colon_chars(t.as_slice()))
            }
        },
        None => None,
    }
}

/// The text of the first `(fp_text value "...")` of a footprint.
pub open spec fn footprint_value_of(s: Seq<char>) -> Option<Seq<char>> {
    match first_occurrence(s, fp_text_value_marker()) {
        Some(p) => match first_quote_from(s, p) {
            Some(q) => match quoted_end(s, q) {
                Some(e) => Some(unescape(s.subrange(q + 1, e))),
                None => None,
            },
            None => None,
        },
        None => None,
    }
}

pub fn footprint_value(content: &[char]) -> (r: Option<Vec<char>>)
    ensures
        r matches Some(v) ==> footprint_value_of(content@) == Some(v@),
        r is None ==> footprint_value_of(content@) is None,
{
    let marker = fp_text_value_marker_chars();
    let p = match find_from(content, 0, marker.as_slice()) {
        Some(p) => p,
        None => {
            proof {
                reveal(crate::text::first_occurrence);
            }
            return None;
        },
    };
    proof {
        lemma_first_occurrence_is(content@, marker@, p as int);
    }
    let q = match find_quote_from(content, p) {
        Some(q) => q,
        None => {
            return None;
        },
    };
    match quoted_string_end(content, q) {
        Some(e) => {
            let body = slice_range(content, q + 1, e);
            Some(unescape_chars(body.as_slice()))
        },
        None => None,
    }
}

proof fn lemma_first_occurrence_is(s: Seq<char>, pat: Seq<char>, p: int)
    requires
        0 <= p,
        crate::text::occurs_at(s, p, pat),
        forall|j: int| 0 <= j < p ==> !crate::text::occurs_at(s, j, pat),
    ensures
        first_occurrence(s, pat) == Some(p),
{
    reveal(crate::text::first_occurrence);
    let w = choose|i: int|
        crate::text::occurs_at(s, i, pat) && forall|j: int|
            0 <= j < i ==> !crate::text::occurs_at(s, j, pat);
    if w < p {
        assert(w >= 0);
    }
    if p < w {
    }
}


/// A token made of `C` or `c` followed by at least one ASCII digit.
pub open spec fn is_lcsc_token(t: Seq<char>) -> bool {
    &&& t.len() > 1
    &&& (t[0] == 'C' || t[0] == 'c')
    &&& forall|k: int| 1 <= k < t.len() ==> is_digit(#[trigger] t[k])
}

/// Searching `parts[..n]` from the back, the first trimmed LCSC token, upper-cased.
pub open spec fn last_lcsc_token(parts: Seq<Seq<char>>, n: int) -> Option<Seq<char>>
    decreases n,
{
    if n <= 0 || n > parts.len() {
        None
    } else if is_lcsc_token(trim(parts[n - 1])) {
        Some(upper_seq(trim(parts[n - 1])))
    } else {
        last_lcsc_token(parts, n - 1)
    }
}

/// The LCSC number that ends a name such as `Device_C123`: the last `_`-separated piece
/// that is an LCSC token.
pub open spec fn lcsc_suffix_of(v: Seq<char>) -> Option<Seq<char>> {
    last_lcsc_token(split_on(v, '_'), split_on(v, '_').len() as int)
}

fn is_lcsc_token_exec(t: &[char]) -> (r: bool)
    ensures
        r == is_lcsc_token(t@),
{
    if t.len() <= 1 || !(t[0] == 'C' || t[0] == 'c') {
        return false;
    }
    let mut k: usize = 1;
    while k < t.len()
        invariant
            1 <= k <= t.len(),
            forall|j: int| 1 <= j < k ==> is_digit(#[trigger] t@[j]),
        decreases t.len() - k,
    {
        if !is_ascii_digit(t[k]) {
            return false;
        }
        k = k + 1;
    }
    true
}

pub fn extract_lcsc_suffix(value: &[char]) -> (r: Option<Vec<char>>)
    ensures
        r matches Some(v) ==> lcsc_suffix_of(value@) == Some(v@),
        r is None ==> lcsc_suffix_of(value@) is None,
{
    let parts = split_chars(value, '_');
    let ghost sp = split_on(value@, '_');
    let mut n = parts.len();
    while n > 0
        invariant
            n <= parts@.len(),
            sp == split_on(value@, '_'),
            parts@.len() == sp.len(),
            forall|k: int| 0 <= k < parts@.len() ==> (#[trigger] parts@[k])@ == sp[k],
            last_lcsc_token(sp, sp.len() as int) == last_lcsc_token(sp, n as int),
        decreases n,
    {
        let t = trim_chars(parts[n - 1].as_slice());
        assert(parts@[n - 1]@ == sp[n - 1]);
        if is_lcsc_token_exec(t.as_slice()) {
            assert(last_lcsc_token(sp, n as int) == Some(upper_seq(trim(sp[n - 1]))));
            let u = upper_chars(t.as_slice());
            assert(u@ == upper_seq(trim(sp[n - 1])));
            return Some(u);
        }
        assert(last_lcsc_token(sp, n as int) == last_lcsc_token(sp, n - 1));
        n = n - 1;
    }
    None
}

/// An LCSC number with ASCII whitespace removed and letters upper-cased.
pub open spec fn normalized_lcsc(v: Seq<char>) -> Seq<char> {
    upper_seq(v.filter(|c: char| !is_ascii_ws(c)))
}

pub fn normalize_lcsc_part(value: &[char]) -> (r: Vec<char>)
    ensures
        r@ == normalized_lcsc(value@),
{
    let mut kept: Vec<char> = Vec::new();
    let mut i: usize = 0;
    while i < value.len()
        invariant
            i <= value.len(),
            kept@ == value@.take(i as int).filter(|c: char| !is_ascii_ws(c)),
        decreases value.len() - i,
    {
        proof {
            reveal(Seq::filter);
            assert(value@.take(i + 1).drop_last() == value@.take(i as int));
        }
        if !is_ascii_whitespace(value[i]) {
            kept.push(value[i]);
        }
        i = i + 1;
    }
    assert(value@.take(value.len() as int) == value@);
    upper_chars(kept.as_slice())
}

/// A top-level `(symbol ...)` block of a symbol library and what it declares.
#[derive(Debug, Clone, PartialEq, Eq)]
pub struct SymbolBlock {
    pub start: usize,
    pub end: usize,
    pub symbol_name: Vec<char>,
    pub lcsc_part: Option<Vec<char>>,
    pub value: Option<Vec<char>>,
    pub package: Option<Vec<char>>,
    pub model_available: bool,
}

pub open spec fn opt_view(o: Option<Vec<char>>) -> Option<Seq<char>> {
    match o {
        Some(v) => Some(v@),
        None => None,
    }
}

/// The package a symbol declares: its `Package` property, else its `Footprint` property
/// without the library prefix.
pub open spec fn block_package(t: Seq<char>) -> Option<Seq<char>> {
    match property_of(t, name_package()) {
        Some(p) => Some(p),
        None => match property_of(t, name_footprint()) {
            Some(f) => Some(after_last_colon(f)),
            None => None,
        },
    }
}

/// `b` describes the block `s[b.start..b.end]`.
pub open spec fn block_describes(s: Seq<char>, b: SymbolBlock) -> bool {
    let t = s.subrange(b.start as int, b.end as int);
    &&& b.start < b.end <= s.len()
    &&& head_string(t, kw_symbol()) == Some(b.symbol_name@)
    &&& opt_view(b.lcsc_part) == property_of(t, name_lcsc_part())
    &&& opt_view(b.value) == property_of(t, name_value())
    &&& opt_view(b.package) == block_package(t)
    &&& b.model_available == contains_seq(t, crate::imported_symbols::model_marker())
}

/// Why a symbol library could not be scanned.
#[derive(Debug, Clone, Copy, PartialEq, Eq)]
pub enum ScanError {
    UnclosedBlock,
    MissingName,
    UnexpectedClose,
    UnterminatedString,
    Unbalanced,
}

pub open spec fn scan_error_message(e: ScanError) -> Seq<char> {
    match e {
        ScanError::UnclosedBlock => "unclosed top-level symbol block"@,
        ScanError::MissingName => "symbol block is missing a name"@,
        ScanError::UnexpectedClose => "unexpected ')' while scanning symbol library"@,
        ScanError::UnterminatedString => "unterminated string literal in symbol library"@,
        ScanError::Unbalanced => "unbalanced parentheses in symbol library"@,
    }
}

/// The spans of the top-level symbol blocks of `s` from position `i` on, given the
/// scanner state there; a symbol block is `(symbol` directly inside the library group.
pub open spec fn blocks_from(s: Seq<char>, i: int, depth: nat, in_str: bool, esc: bool) -> Result<
    Seq<(int, int)>,
    ScanError,
>
    decreases s.len() - i,
{
    if i < 0 || i >= s.len() {
        if in_str {
            Err(ScanError::UnterminatedString)
        } else if depth != 0 {
            Err(ScanError::Unbalanced)
        } else {
            Ok(Seq::empty())
        }
    } else if in_str {
        if esc {
            blocks_from(s, i + 1, depth, true, false)
        } else if s[i] == '\\' {
            blocks_from(s, i + 1, depth, true, true)
        } else if s[i] == '"' {
            blocks_from(s, i + 1, depth, false, false)
        } else {
            blocks_from(s, i + 1, depth, true, false)
        }
    } else if s[i] == '"' {
        blocks_from(s, i + 1, depth, true, false)
    } else if s[i] == '(' {
        if depth == 1 && block_keyword_at(s, i, kw_symbol()) {
            match paren_group_end(s, i) {
                None => Err(ScanError::UnclosedBlock),
                Some(end) => if head_string(s.subrange(i, end), kw_symbol()) is None {
                    Err(ScanError::MissingName)
                } else if i < end <= s.len() {
                    match blocks_from(s, end, depth, false, false) {
                        Ok(rest) => Ok(seq![(i, end)] + rest),
                        Err(e) => Err(e),
                    }
                } else {
                    Err(ScanError::UnclosedBlock)
                },
            }
        } else {
            blocks_from(s, i + 1, depth + 1, false, false)
        }
    } else if s[i] == ')' {
        if depth == 0 {
            Err(ScanError::UnexpectedClose)
        } else {
            blocks_from(s, i + 1, (depth - 1) as nat, false, false)
        }
    } else {
        blocks_from(s, i + 1, depth, false, false)
    }
}

pub open spec fn prepend_blocks(acc: Seq<(int, int)>, r: Result<Seq<(int, int)>, ScanError>) -> Result<
    Seq<(int, int)>,
    ScanError,
> {
    match r {
        Ok(rest) => Ok(acc + rest),
        Err(e) => Err(e),
    }
}

/// Describes the block `content[start..end]`.
fn describe_block(content: &[char], start: usize, end: usize, name: Vec<char>) -> (b: SymbolBlock)
    requires
        start < end <= content.len(),
        head_string(content@.subrange(start as int, end as int), kw_symbol()) == Some(name@),
    ensures
        block_describes(content@, b),
        b.start == start,
        b.end == end,
{
    let text = slice_range(content, start, end);
    let lcsc_name = name_lcsc_part_chars();
    let value_name = name_value_chars();
    let package_name = name_package_chars();
    let footprint_name = name_footprint_chars();
    let marker = model_marker_chars();
    let lcsc_part = property_value(text.as_slice(), lcsc_name.as_slice());
    let value = property_value(text.as_slice(), value_name.as_slice());
    let package = match property_value(text.as_slice(), package_name.as_slice()) {
        Some(p) => Some(p),
        None => match property_value(text.as_slice(), footprint_name.as_slice()) {
            Some(f) => Some(after_last_colon_chars(f.as_slice())),
            None => None,
        },
    };
    let model_available = contains_chars(text.as_slice(), marker.as_slice());
    SymbolBlock { start, end, symbol_name: name, lcsc_part, value, package, model_available }
}

/// The top-level symbol blocks of a symbol library, in order.
pub fn top_level_symbol_blocks(content: &[char]) -> (r: Result<Vec<SymbolBlock>, String>)
    ensures
        match r {
            Ok(v) => blocks_from(content@, 0, 0, false, false) matches Ok(spans) && v@.len()
                == spans.len() && forall|k: int|
                0 <= k < v@.len() ==> block_describes(content@, #[trigger] v@[k]) && (
                v@[k].start as int, v@[k].end as int) == spans[k],
            Err(m) => blocks_from(content@, 0, 0, false, false) matches Err(e) && m@
                == scan_error_message(e),
        },
{
    let kw = kw_symbol_chars();
    let mut depth: usize = 0;
    let mut in_string = false;
    let mut escaped = false;
    let mut index: usize = 0;
    let mut blocks: Vec<SymbolBlock> = Vec::new();
    let ghost mut acc: Seq<(int, int)> = Seq::empty();
    let ghost total = blocks_from(content@, 0, 0, false, false);
    assert(prepend_blocks(acc, total) == total) by {
        match total {
            Ok(rest) => {
                assert(acc + rest == rest);
            },
            Err(e) => {},
        }
    }
    while index < content.len()
        invariant
            index <= content.len(),
            depth <= index,
            in_string || !escaped,
            kw@ == kw_symbol(),
            total == blocks_from(content@, 0, 0, false, false),
            prepend_blocks(acc, blocks_from(content@, index as int, depth as nat, in_string, escaped))
                == total,
            blocks@.len() == acc.len(),
            forall|k: int|
                0 <= k < blocks@.len() ==> block_describes(content@, #[trigger] blocks@[k]) && (
                blocks@[k].start as int, blocks@[k].end as int) == acc[k],
        decreases content.len() - index,
    {
        let c = content[index];
        let ghost before = blocks_from(content@, index as int, depth as nat, in_string, escaped);
        if in_string {
            if escaped {
                escaped = false;
            } else if c == '\\' {
                escaped = true;
            } else if c == '"' {
                in_string = false;
            }
            index = index + 1;
            assert(before == blocks_from(content@, index as int, depth as nat, in_string, escaped));
        } else if c == '"' {
            in_string = true;
            index = index + 1;
            assert(before == blocks_from(content@, index as int, depth as nat, in_string, escaped));
        } else if c == '(' {
            if depth == 1 && starts_block_keyword(content, index, kw.as_slice()) {
                proof {
                    crate::sexpr::lemma_group_end_after(content@, index as int);
                }
                let end = match matching_paren_end(content, index) {
                    Some(end) => end,
                    None => {
                        return Err(msg("unclosed top-level symbol block"));
                    },
                };
                let text = slice_range(content, index, end);
                let name = match head_string_after_keyword(text.as_slice(), kw.as_slice()) {
                    Some(name) => name,
                    None => {
                        return Err(msg("symbol block is missing a name"));
                    },
                };
                let block = describe_block(content, index, end, name);
                blocks.push(block);
                assert(text@ == content@.subrange(index as int, end as int));
                assert(before == prepend_blocks(
                    seq![(index as int, end as int)],
                    blocks_from(content@, end as int, depth as nat, false, false),
                ));
                proof {
                    let rest = blocks_from(content@, end as int, depth as nat, false, false);
                    match rest {
                        Ok(r2) => {
                            assert(acc.push((index as int, end as int)) + r2 == acc + (seq![
                                (index as int, end as int),
                            ] + r2));
                        },
                        Err(e) => {},
                    }
                    acc = acc.push((index as int, end as int));
                }
                index = end;
            } else {
                depth = depth + 1;
                index = index + 1;
                assert(before == blocks_from(content@, index as int, depth as nat, in_string, escaped));
            }
        } else if c == ')' {
            if depth == 0 {
                return Err(msg("unexpected ')' while scanning symbol library"));
            }
            depth = depth - 1;
            index = index + 1;
            assert(before == blocks_from(content@, index as int, depth as nat, in_string, escaped));
        } else {
            index = index + 1;
            assert(before == blocks_from(content@, index as int, depth as nat, in_string, escaped));
        }
    }
    if in_string {
        return Err(msg("unterminated string literal in symbol library"));
    }
    if depth != 0 {
        return Err(msg("unbalanced parentheses in symbol library"));
    }
    proof {
        assert(acc + Seq::<(int, int)>::empty() == acc);
    }
    Ok(blocks)
}

/// A message string.
fn msg(s: &str) -> (r: String)
    ensures
        r@ == s@,
{
    s.to_owned()
}


/// `text` or the empty text.
pub open spec fn or_empty(o: Option<Seq<char>>) -> Seq<char> {
    match o {
        Some(v) => v,
        None => Seq::empty(),
    }
}

pub open spec fn or_else(o: Option<Seq<char>>, d: Seq<char>) -> Seq<char> {
    match o {
        Some(v) => v,
        None => d,
    }
}

/// The LCSC number of a symbol block `t`: its `LCSC Part` property normalized, else the
/// number ending the symbol name, else the number ending its value, else empty.
pub open spec fn block_lcsc(t: Seq<char>) -> Seq<char> {
    let name = or_empty(head_string(t, kw_symbol()));
    match property_of(t, name_lcsc_part()) {
        Some(p) => normalized_lcsc(p),
        None => match lcsc_suffix_of(name) {
            Some(x) => x,
            None => match property_of(t, name_value()) {
                Some(v) => or_empty(lcsc_suffix_of(v)),
                None => Seq::empty(),
            },
        },
    }
}

/// `it` is the item that the symbol block `t` of library file `lf` yields.
pub open spec fn symbol_item_for(lf: LibraryFile, t: Seq<char>, it: ImportedSymbol) -> bool {
    let name = or_empty(head_string(t, kw_symbol()));
    &&& it.library_key@ == "symbol:"@ + lf.source_file@ + ":"@ + name
    &&& it.lcsc_part@ == block_lcsc(t)
    &&& it.value@ == or_else(property_of(t, name_value()), name)
    &&& it.symbol_name@ == name
    &&& it.package@ == or_empty(block_package(t))
    &&& it.source_file@ == lf.source_file@
    &&& it.source_kind@ == lf.source_kind@
    &&& it.editable == lf.editable
    &&& it.model_available == contains_seq(t, model_marker())
    &&& it.models@.len() == 0
}

/// `it` is the single item that the footprint file `content` of `lf` yields, named `name`.
pub open spec fn footprint_item_for(lf: LibraryFile, content: Seq<char>, it: ImportedSymbol) -> bool {
    let name = or_empty(head_string(content, kw_footprint()));
    let lcsc = match property_of(content, name_lcsc_part()) {
        Some(p) => Some(normalized_lcsc(p)),
        None => lcsc_suffix_of(name),
    };
    &&& it.library_key@ == "footprint:"@ + lf.source_file@ + ":"@ + name
    &&& it.lcsc_part@ == or_empty(lcsc)
    &&& it.value@ == or_else(footprint_value_of(content), name)
    &&& it.symbol_name@ == name
    &&& it.package@ == or_else(property_of(content, name_package()), name)
    &&& it.source_file@ == lf.source_file@
    &&& it.source_kind@ == lf.source_kind@
    &&& it.editable == lf.editable
    &&& it.model_available == contains_seq(content, model_marker())
    &&& it.models@.len() == 0
}

pub open spec fn is_footprint_file(lf: LibraryFile) -> bool {
    crate::paths::extension(lf.path@) == Some(seq!['k', 'i', 'c', 'a', 'd', '_', 'm', 'o', 'd'])
}

/// Concatenation of three texts as a string.
pub fn concat3(a: &[char], b: &[char], c: &[char]) -> (r: String)
    ensures
        r@ == a@ + b@ + c@,
{
    let mut v: Vec<char> = Vec::new();
    extend_chars(&mut v, a);
    extend_chars(&mut v, b);
    extend_chars(&mut v, c);
    string_from(v.as_slice())
}

/// Concatenation of a prefix, two texts and a separator between them as a string.
fn library_key(prefix: &str, source_file: &String, name: &[char]) -> (r: String)
    ensures
        r@ == prefix@ + source_file@ + ":"@ + name@,
{
    let mut v: Vec<char> = Vec::new();
    let p = chars_of(prefix);
    extend_chars(&mut v, p.as_slice());
    let sf = chars_of(source_file.as_str());
    extend_chars(&mut v, sf.as_slice());
    let colon = chars_of(":");
    extend_chars(&mut v, colon.as_slice());
    extend_chars(&mut v, name);
    string_from(v.as_slice())
}

fn copy_string(s: &String) -> (r: String)
    ensures
        r@ == s@,
{
    s.clone()
}

fn symbol_item(lf: &LibraryFile, content: &[char], b: &SymbolBlock) -> (it: ImportedSymbol)
    requires
        block_describes(content@, *b),
    ensures
        symbol_item_for(*lf, content@.subrange(b.start as int, b.end as int), it),
{
    let ghost t = content@.subrange(b.start as int, b.end as int);
    let lcsc: Vec<char> = match &b.lcsc_part {
        Some(p) => normalize_lcsc_part(p.as_slice()),
        None => match extract_lcsc_suffix(b.symbol_name.as_slice()) {
            Some(x) => x,
            None => match &b.value {
                Some(v) => match extract_lcsc_suffix(v.as_slice()) {
                    Some(x) => x,
                    None => Vec::new(),
                },
                None => Vec::new(),
            },
        },
    };
    assert(lcsc@ == block_lcsc(t));
    let value = match &b.value {
        Some(v) => string_from(v.as_slice()),
        None => string_from(b.symbol_name.as_slice()),
    };
    let package = match &b.package {
        Some(p) => string_from(p.as_slice()),
        None => String::new(),
    };
    ImportedSymbol {
        library_key: library_key("symbol:", &lf.source_file, b.symbol_name.as_slice()),
        lcsc_part: string_from(lcsc.as_slice()),
        value,
        symbol_name: string_from(b.symbol_name.as_slice()),
        package,
        source_file: copy_string(&lf.source_file),
        source_kind: copy_string(&lf.source_kind),
        editable: lf.editable,
        model_available: b.model_available,
        models: Vec::new(),
    }
}

/// The single item of a footprint library file.
pub fn parse_kicad_footprint_lib(content: &[char], lf: &LibraryFile) -> (r: Result<
    Vec<ImportedSymbol>,
    String,
>)
    ensures
        match r {
            Ok(items) => head_string(content@, kw_footprint()) is Some && items@.len() == 1
                && footprint_item_for(*lf, content@, items@[0]),
            Err(m) => head_string(content@, kw_footprint()) is None && m@
                == "footprint file is missing a name"@,
        },
{
    let kw = kw_footprint_chars();
    let name = match head_string_after_keyword(content, kw.as_slice()) {
        Some(n) => n,
        None => {
            return Err(msg("footprint file is missing a name"));
        },
    };
    let lcsc_name = name_lcsc_part_chars();
    let lcsc: Option<Vec<char>> = match property_value(content, lcsc_name.as_slice()) {
        Some(p) => Some(normalize_lcsc_part(p.as_slice())),
        None => extract_lcsc_suffix(name.as_slice()),
    };
    let package_name = name_package_chars();
    let package = match property_value(content, package_name.as_slice()) {
        Some(p) => string_from(p.as_slice()),
        None => string_from(name.as_slice()),
    };
    let value = match footprint_value(content) {
        Some(v) => string_from(v.as_slice()),
        None => string_from(name.as_slice()),
    };
    let lcsc_part = match &lcsc {
        Some(x) => string_from(x.as_slice()),
        None => String::new(),
    };
    let marker = model_marker_chars();
    let item = ImportedSymbol {
        library_key: library_key("footprint:", &lf.source_file, name.as_slice()),
        lcsc_part,
        value,
        symbol_name: string_from(name.as_slice()),
        package,
        source_file: copy_string(&lf.source_file),
        source_kind: copy_string(&lf.source_kind),
        editable: lf.editable,
        model_available: contains_chars(content, marker.as_slice()),
        models: Vec::new(),
    };
    let mut items: Vec<ImportedSymbol> = Vec::new();
    items.push(item);
    Ok(items)
}

/// `r` is what reading the library file `lf` with text `content` gives: one item for a
/// footprint file, one per top-level symbol for a symbol library, or the error.
pub open spec fn library_items(content: Seq<char>, lf: LibraryFile, r: Result<Vec<ImportedSymbol>, String>) -> bool {
    &&& is_footprint_file(lf) ==> match r {
        Ok(items) => head_string(content, kw_footprint()) is Some && items@.len() == 1
            && footprint_item_for(lf, content, items@[0]),
        Err(m) => head_string(content, kw_footprint()) is None && m@
            == "footprint file is missing a name"@,
    }
    &&& !is_footprint_file(lf) ==> match r {
        Ok(items) => blocks_from(content, 0, 0, false, false) matches Ok(spans) && items@.len()
            == spans.len() && forall|k: int|
            0 <= k < items@.len() ==> symbol_item_for(
                lf,
                content.subrange(spans[k].0, spans[k].1),
                #[trigger] items@[k],
            ),
        Err(m) => blocks_from(content, 0, 0, false, false) matches Err(e) && m@
            == scan_error_message(e),
    }
}

/// The items of an exported symbol library named `source_file`: read as an editable
/// library of the export kind (see `parse_kicad_library_file`).
pub fn parse_kicad_symbol_lib(content: &str, source_file: &str) -> (r: Result<Vec<ImportedSymbol>, String>)
    ensures
        exists|lf: LibraryFile|
            lf.path@ == source_file@ && lf.source_file@ == source_file@ && lf.source_kind@
                == "export"@ && lf.editable && #[trigger] library_items(content@, lf, r),
{
    let lf = LibraryFile {
        path: source_file.to_owned(),
        source_file: source_file.to_owned(),
        source_kind: "export".to_owned(),
        editable: true,
    };
    parse_kicad_library_file(content, &lf)
}

/// The items of one library file: a `.kicad_mod` footprint yields one item, a symbol
/// library one item per top-level symbol.
pub fn parse_kicad_library_file(content: &str, lf: &LibraryFile) -> (r: Result<
    Vec<ImportedSymbol>,
    String,
>)
    ensures
        library_items(content@, *lf, r),
{
    let cs = chars_of(content);
    let path = chars_of(lf.path.as_str());
    let is_mod = match crate::paths::extension_chars(path.as_slice()) {
        Some(e) => {
            let m = vec!['k', 'i', 'c', 'a', 'd', '_', 'm', 'o', 'd'];
            chars_eq(e.as_slice(), m.as_slice())
        },
        None => false,
    };
    if is_mod {
        return parse_kicad_footprint_lib(cs.as_slice(), lf);
    }
    let blocks = top_level_symbol_blocks(cs.as_slice())?;
    let mut items: Vec<ImportedSymbol> = Vec::new();
    let mut k: usize = 0;
    while k < blocks.len()
        invariant
            k <= blocks@.len(),
            items@.len() == k,
            cs@ == content@,
            forall|j: int|
                0 <= j < blocks@.len() ==> block_describes(cs@, #[trigger] blocks@[j]),
            forall|j: int|
                0 <= j < k ==> symbol_item_for(
                    *lf,
                    cs@.subrange(blocks@[j].start as int, blocks@[j].end as int),
                    #[trigger] items@[j],
                ),
        decreases blocks@.len() - k,
    {
        let it = symbol_item(lf, cs.as_slice(), &blocks[k]);
        items.push(it);
        k = k + 1;
    }
    Ok(items)
}


/// A replacement of the text `[start, end)` by `text`.
pub type Replacement = (usize, usize, Vec<char>);

pub open spec fn rep_view(r: Replacement) -> (int, int, Seq<char>) {
    (r.0 as int, r.1 as int, r.2@)
}

/// The name edits that renaming `cur` to `new` makes in a symbol block, scanning from `i`:
/// every `(symbol "NAME"` whose name is `cur`, or `cur` followed by `_...` (a unit of the
/// symbol), is renamed; a `(symbol` without a name string is an error.
pub open spec fn renames_from(s: Seq<char>, i: int, cur: Seq<char>, new: Seq<char>) -> Option<
    Seq<(int, int, Seq<char>)>,
>
    decreases s.len() - i,
{
    if i < 0 || i >= s.len() {
        Some(Seq::empty())
    } else if block_keyword_at(s, i, kw_symbol()) {
        match string_after_keyword(s, i, kw_symbol()) {
            None => None,
            Some((a, b)) => {
                let existing = unescape(s.subrange(a, b));
                let rest = renames_from(s, i + 1, cur, new);
                if existing == cur {
                    match rest {
                        Some(r) => Some(seq![(a, b, escape_quotes(new))] + r),
                        None => None,
                    }
                } else if crate::text::starts_with(existing, cur) && existing.len() > cur.len()
                    && existing[cur.len() as int] == '_' {
                    match rest {
                        Some(r) => Some(
                            seq![(a, b, escape_quotes(new + existing.skip(cur.len() as int)))] + r,
                        ),
                        None => None,
                    }
                } else {
                    rest
                }
            },
        }
    } else {
        renames_from(s, i + 1, cur, new)
    }
}

/// The edits that rename symbol `cur` (and its units) to `new` inside `block`.
pub fn rename_symbol_names_in_block(block: &[char], cur: &[char], new: &[char]) -> (r: Result<
    Vec<Replacement>,
    String,
>)
    ensures
        match r {
            Ok(v) => renames_from(block@, 0, cur@, new@) matches Some(e) && v@.map_values(
                |x: Replacement| rep_view(x),
            ) == e,
            Err(m) => renames_from(block@, 0, cur@, new@) is None && m@
                == "symbol block is missing a name"@,
        },
{
    let kw = kw_symbol_chars();
    let mut out: Vec<Replacement> = Vec::new();
    let mut i: usize = 0;
    let ghost total = renames_from(block@, 0, cur@, new@);
    assert(total matches Some(e) ==> Seq::<(int, int, Seq<char>)>::empty() + e == e);
    while i < block.len()
        invariant
            i <= block.len(),
            kw@ == kw_symbol(),
            total == renames_from(block@, 0, cur@, new@),
            match renames_from(block@, i as int, cur@, new@) {
                Some(rest) => total == Some(out@.map_values(|x: Replacement| rep_view(x)) + rest),
                None => total is None,
            },
            forall|k: int| 0 <= k < out@.len() ==> (#[trigger] out@[k]).0 <= out@[k].1 <= block.len(),
        decreases block.len() - i,
    {
        let ghost before = out@.map_values(|x: Replacement| rep_view(x));
        if starts_block_keyword(block, i, kw.as_slice()) {
            match string_after_keyword_range(block, i, kw.as_slice()) {
                None => {
                    return Err(msg("symbol block is missing a name"));
                },
                Some((a, b)) => {
                    let body = slice_range(block, a, b);
                    let existing = unescape_chars(body.as_slice());
                    if chars_eq(existing.as_slice(), cur) {
                        let t = escape_quote_chars(new);
                        out.push((a, b, t));
                        assert(out@.map_values(|x: Replacement| rep_view(x)) == before.push(
                            (a as int, b as int, escape_quotes(new@)),
                        ));
                    } else if crate::text::starts_with_chars(existing.as_slice(), cur)
                        && existing.len() > cur.len() && existing[cur.len()] == '_' {
                        let mut renamed: Vec<char> = Vec::new();
                        extend_chars(&mut renamed, new);
                        let suffix = slice_range(existing.as_slice(), cur.len(), existing.len());
                        extend_chars(&mut renamed, suffix.as_slice());
                        assert(suffix@ == existing@.skip(cur@.len() as int));
                        let t = escape_quote_chars(renamed.as_slice());
                        out.push((a, b, t));
                        assert(out@.map_values(|x: Replacement| rep_view(x)) == before.push(
                            (a as int, b as int, escape_quotes(new@ + existing@.skip(cur@.len() as int))),
                        ));
                    }
                    proof {
                        let rest = renames_from(block@, i + 1, cur@, new@);
                        match rest {
                            Some(r2) => {
                                assert(before.push((a as int, b as int, escape_quotes(new@))) + r2
                                    == before + (seq![(a as int, b as int, escape_quotes(new@))] + r2));
                                assert(before.push((a as int, b as int, escape_quotes(new@ + existing@.skip(cur@.len() as int)))) + r2
                                    == before + (seq![(a as int, b as int, escape_quotes(new@ + existing@.skip(cur@.len() as int)))] + r2));
                            },
                            None => {},
                        }
                    }
                },
            }
        }
        i = i + 1;
    }
    proof {
        assert(renames_from(block@, i as int, cur@, new@) == Some(Seq::<(int, int, Seq<char>)>::empty()));
        let v = out@.map_values(|x: Replacement| rep_view(x));
        assert(v + Seq::<(int, int, Seq<char>)>::empty() == v);
    }
    Ok(out)
}


pub type RepView = (int, int, Seq<char>);

/// Where `x` goes in a list sorted by descending start: before the first entry that starts
/// earlier than it (after any entry with the same start).
pub open spec fn insert_pos(t: Seq<RepView>, x: RepView, n: int) -> int
    decreases n,
{
    if n <= 0 {
        0
    } else if t[n - 1].0 < x.0 {
        insert_pos(t, x, n - 1)
    } else {
        n
    }
}

/// The first `n` replacements sorted by descending start, keeping the given order among
/// equal starts.
pub open spec fn sort_desc(reps: Seq<RepView>, n: int) -> Seq<RepView>
    decreases n,
{
    if n <= 0 {
        Seq::empty()
    } else {
        let t = sort_desc(reps, n - 1);
        t.insert(insert_pos(t, reps[n - 1], t.len() as int), reps[n - 1])
    }
}

/// Why replacements could not be applied.
#[derive(Debug, Clone, Copy, PartialEq, Eq)]
pub enum ReplaceError {
    OutOfBounds,
    Overlap,
}

/// Applies replacements sorted by descending start to `cur`, each of which must end at
/// or before the start of the one applied before it (`prev`).
pub open spec fn apply_sorted(cur: Seq<char>, reps: Seq<RepView>, prev: int) -> Result<
    Seq<char>,
    ReplaceError,
>
    decreases reps.len(),
{
    if reps.len() == 0 {
        Ok(cur)
    } else {
        let (a, b, t) = reps[0];
        if a > b || b > cur.len() {
            Err(ReplaceError::OutOfBounds)
        } else if b > prev {
            Err(ReplaceError::Overlap)
        } else {
            apply_sorted(cur.take(a) + t + cur.skip(b), reps.drop_first(), a)
        }
    }
}

/// `input` with the given replacements applied, the last in the text first.
pub open spec fn applied(input: Seq<char>, reps: Seq<RepView>) -> Result<Seq<char>, ReplaceError> {
    apply_sorted(input, sort_desc(reps, reps.len() as int), input.len() as int)
}

pub open spec fn replace_error_message(e: ReplaceError) -> Seq<char> {
    match e {
        ReplaceError::OutOfBounds => "replacement range is out of bounds"@,
        ReplaceError::Overlap => "replacement ranges overlap"@,
    }
}

pub open spec fn reps_view(v: Seq<Replacement>) -> Seq<RepView> {
    v.map_values(|x: Replacement| rep_view(x))
}

fn sort_replacements(reps: Vec<Replacement>) -> (r: Vec<Replacement>)
    ensures
        reps_view(r@) == sort_desc(reps_view(reps@), reps@.len() as int),
{
    let ghost orig = reps@;
    let ghost rv = reps_view(reps@);
    let mut sorted: Vec<Replacement> = Vec::new();
    let mut rest = reps;
    let ghost mut n: int = 0;
    while rest.len() > 0
        invariant
            0 <= n <= orig.len(),
            rest@ == orig.skip(n),
            rv == reps_view(orig),
            reps_view(sorted@) == sort_desc(rv, n),
        decreases rest.len(),
    {
        let x = rest.remove(0);
        assert(x == orig[n]);
        let ghost t = reps_view(sorted@);
        let mut p = sorted.len();
        while p > 0 && sorted[p - 1].0 < x.0
            invariant
                p <= sorted@.len(),
                t == reps_view(sorted@),
                insert_pos(t, rep_view(x), t.len() as int) == insert_pos(t, rep_view(x), p as int),
            decreases p,
        {
            p = p - 1;
        }
        sorted.insert(p, x);
        assert(reps_view(sorted@) =~= t.insert(p as int, rep_view(x)));
        proof {
            n = n + 1;
            assert(rest@ =~= orig.skip(n));
            assert(rv[n - 1] == rep_view(x));
        }
    }
    assert(n == orig.len());
    sorted
}

/// `input` with each `(start, end, text)` replacement applied, working from the end of the
/// text to its start; ranges must lie inside the text and must not overlap.
pub fn apply_replacements(input: &[char], reps: Vec<Replacement>) -> (r: Result<Vec<char>, String>)
    ensures
        match r {
            Ok(v) => applied(input@, reps_view(reps@)) == Ok::<Seq<char>, ReplaceError>(v@),
            Err(m) => applied(input@, reps_view(reps@)) matches Err(e) && m@
                == replace_error_message(e),
        },
{
    let ghost all = reps_view(reps@);
    let sorted = sort_replacements(reps);
    let mut result: Vec<char> = Vec::new();
    extend_chars(&mut result, input);
    assert(result@ == input@);
    let mut previous_start = input.len();
    let mut k: usize = 0;
    let ghost sv = reps_view(sorted@);
    assert(sv.skip(0) == sv);
    while k < sorted.len()
        invariant
            k <= sorted@.len(),
            sv == reps_view(sorted@),
            previous_start <= result@.len() || k == 0,
            apply_sorted(result@, sv.skip(k as int), previous_start as int) == applied(input@, all),
            all == reps_view(reps@),
            sv == sort_desc(all, all.len() as int),
        decreases sorted@.len() - k,
    {
        let (a, b, ref t) = sorted[k];
        assert(sv.skip(k as int)[0] == rep_view(sorted@[k as int]));
        assert(sv.skip(k as int).drop_first() == sv.skip(k + 1));
        if a > b || b > result.len() {
            return Err(msg("replacement range is out of bounds"));
        }
        if b > previous_start {
            return Err(msg("replacement ranges overlap"));
        }
        let mut next: Vec<char> = Vec::new();
        let head = slice_range(result.as_slice(), 0, a);
        extend_chars(&mut next, head.as_slice());
        extend_chars(&mut next, t.as_slice());
        let tail = slice_range(result.as_slice(), b, result.len());
        extend_chars(&mut next, tail.as_slice());
        assert(next@ =~= result@.take(a as int) + t@ + result@.skip(b as int));
        result = next;
        previous_start = a;
        k = k + 1;
    }
    assert(sv.skip(k as int).len() == 0);
    Ok(result)
}

} // verus!
