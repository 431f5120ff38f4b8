//! Matching bill-of-materials rows to parts in stock, and taking stock from locations.
use vstd::prelude::*;
use crate::text::{
    chars_of, chars_eq, extend_chars, extend_str, is_ws, is_whitespace, seq_lt, str_eq, str_lt,
    string_from, trim, trim_str, upper, upper_seq, to_upper, is_digit,
};
use crate::imported_symbols::{after_last_colon, after_last_colon_chars};
use crate::pattern::opt_string_view;

verus! {

/// The upper-case form of `s` by Unicode's rules, as `str::to_uppercase` gives it.
pub uninterp spec fn unicode_uppercase(s: Seq<char>) -> Seq<char>;

/// `str::to_uppercase`: the Unicode upper-case form of `s` (it may be longer than `s`).
/// The result is named by `unicode_uppercase`.
#[verifier::external_body]
fn to_uppercase(s: &str) -> (r: String)
    ensures
        r@ == unicode_uppercase(s@),
{
    s.to_uppercase()
}

/// Stock of a part at one location.
#[derive(Debug, Clone, PartialEq, Eq)]
pub struct InventoryLocation {
    pub location: String,
    pub quantity: i64,
    pub priority: u32,
}

/// A part kept in stock.
#[derive(Debug, Clone, PartialEq, Eq)]
pub struct InventoryPart {
    pub id: String,
    pub library_lcsc: Option<String>,
    pub library_symbol_name: Option<String>,
    pub library_source_file: Option<String>,
    pub library_missing: bool,
    pub supplier_part_number: Option<String>,
    pub name: String,
    pub package: String,
    pub note: String,
    pub locations: Vec<InventoryLocation>,
}

/// A part as the user enters or edits it.
#[derive(Debug, Clone, PartialEq, Eq)]
pub struct InventoryPartInput {
    pub id: Option<String>,
    pub library_lcsc: Option<String>,
    pub library_symbol_name: Option<String>,
    pub library_source_file: Option<String>,
    pub supplier_part_number: Option<String>,
    pub name: String,
    pub package: String,
    pub note: String,
    pub locations: Vec<InventoryLocation>,
}

/// A part found in a symbol library.
#[derive(Debug, Clone, PartialEq, Eq)]
pub struct InventoryLibraryPart {
    pub library_key: String,
    pub lcsc_part: String,
    pub value: String,
    pub symbol_name: String,
    pub package: String,
    pub source_file: String,
    pub has_model: bool,
    pub source_kind: String,
    pub editable: bool,
}

/// A change of stock at one location.
#[derive(Debug, Clone, PartialEq, Eq)]
pub struct InventoryStockAdjustment {
    pub part_id: String,
    pub location: String,
    pub delta: i64,
}

/// The parts in stock, at a revision of the stock.
#[derive(Debug, Clone, PartialEq, Eq)]
pub struct InventoryResponse {
    pub revision: i64,
    pub parts: Vec<InventoryPart>,
}

/// A part in stock that a row may stand for.
#[derive(Debug, Clone, PartialEq, Eq)]
pub struct InventoryCandidate {
    pub id: String,
    pub label: String,
    pub exact_supplier_match: bool,
}

/// A library part that a row may stand for.
#[derive(Debug, Clone, PartialEq, Eq)]
pub struct InventoryLibraryCandidate {
    pub library_key: String,
    pub lcsc_part: String,
    pub label: String,
    pub has_model: bool,
    pub already_in_inventory: bool,
    pub source_kind: String,
    pub source_file: String,
    pub symbol_name: String,
}

/// Stock taken from one location.
#[derive(Debug, Clone, PartialEq, Eq)]
pub struct InventoryAllocation {
    pub part_id: String,
    pub location: String,
    pub quantity: i64,
}

/// One row of a bill of materials as previewed against the stock.
#[derive(Debug, Clone, PartialEq, Eq)]
pub struct BomPreviewRow {
    pub row_number: usize,
    pub identifier: String,
    pub references: String,
    pub supplier_part_number: Option<String>,
    pub supplier_part_number_source: Option<String>,
    pub supplier_part_number_conflict: bool,
    pub name: String,
    pub package: String,
    pub quantity_per_board: u64,
    pub required_quantity: u64,
    pub matched_part_id: Option<String>,
    pub candidates: Vec<InventoryCandidate>,
    pub library_candidates: Vec<InventoryLibraryCandidate>,
    pub match_kind: String,
    pub library_status: String,
    pub model_status: String,
    pub allocations: Vec<InventoryAllocation>,
}

/// A bill of materials previewed against the stock.
#[derive(Debug, Clone, PartialEq, Eq)]
pub struct BomPreview {
    pub path: String,
    pub boards: u64,
    pub revision: i64,
    pub rows: Vec<BomPreviewRow>,
}

/// What to do with one row when importing a bill of materials.
#[derive(Debug, Clone, PartialEq, Eq)]
pub struct BomImportRow {
    pub row_number: usize,
    pub skipped: bool,
    pub library_lcsc: Option<String>,
    pub library_key: Option<String>,
}

/// A request to import a bill of materials.
#[derive(Debug, Clone, PartialEq, Eq)]
pub struct ImportBomRequest {
    pub path: String,
    pub revision: i64,
    pub rows: Vec<BomImportRow>,
}

/// What importing a bill of materials did.
#[derive(Debug, Clone, PartialEq, Eq)]
pub struct ImportBomResult {
    pub imported: usize,
    pub existing: usize,
    pub skipped: usize,
    pub manual: usize,
    pub pending_library: usize,
}

/// What to take from stock for one row.
#[derive(Debug, Clone, PartialEq, Eq)]
pub struct BomDeductionRow {
    pub row_number: usize,
    pub part_id: Option<String>,
    pub skipped: bool,
    pub allocations: Vec<InventoryAllocation>,
}

/// A request to take the stock for a bill of materials.
#[derive(Debug, Clone, PartialEq, Eq)]
pub struct ConfirmBomDeductionRequest {
    pub path: String,
    pub boards: u64,
    pub revision: i64,
    pub rows: Vec<BomDeductionRow>,
}

/// A production run that took stock.
#[derive(Debug, Clone, PartialEq, Eq)]
pub struct ProductionRecord {
    pub id: i64,
    pub path: String,
    pub boards: u64,
    pub created_at: String,
    pub total_rows: usize,
    pub matched_rows: usize,
    pub skipped_rows: usize,
}

/// One row read from a bill of materials.
#[derive(Debug, Clone, PartialEq, Eq)]
pub struct BomRow {
    pub row_number: usize,
    pub identifier: String,
    pub references: String,
    pub supplier_part_number: Option<String>,
    pub supplier_part_number_source: Option<String>,
    pub supplier_part_number_conflict: bool,
    pub name: String,
    pub package: String,
    pub quantity: u64,
}

/// `s` with whitespace dropped, as a key for part numbers.
pub open spec fn without_ws(s: Seq<char>) -> Seq<char> {
    s.filter(|c: char| !is_ws(c))
}

/// The key under which part numbers compare: no whitespace, upper case.
pub open spec fn identifier_key(s: Seq<char>) -> Seq<char> {
    unicode_uppercase(without_ws(s))
}

/// The key of a part number (see `identifier_key`).
pub fn normalize_identifier(value: &str) -> (r: String)
    ensures
        r@ == identifier_key(value@),
{
    let cs = chars_of(value);
    let mut kept: Vec<char> = Vec::new();
    let mut i: usize = 0;
    while i < cs.len()
        invariant
            i <= cs.len(),
            cs@ == value@,
            kept@ == cs@.take(i as int).filter(|c: char| !is_ws(c)),
        decreases cs.len() - i,
    {
        proof {
            reveal(Seq::filter);
            assert(cs@.take(i + 1).drop_last() =~= cs@.take(i as int));
        }
        if !is_whitespace(cs[i]) {
            kept.push(cs[i]);
        }
        i = i + 1;
    }
    assert(cs@.take(cs.len() as int) =~= cs@);
    let s = string_from(kept.as_slice());
    to_uppercase(s.as_str())
}

/// Reads `s` keeping runs of characters for which `sep` holds as one `joiner` between the
/// other characters (none at either end), each other character mapped by `up` (the first
/// `n` characters).
pub open spec fn collapse_prefix(s: Seq<char>, n: int, sep: spec_fn(char) -> bool, joiner: char, up: spec_fn(char) -> char) -> (Seq<char>, bool)
    decreases n,
{
    if n <= 0 {
        (Seq::empty(), false)
    } else {
        let (o, p) = collapse_prefix(s, n - 1, sep, joiner, up);
        let c = s[n - 1];
        if sep(c) {
            (o, o.len() > 0)
        } else if p {
            (o.push(joiner).push(up(c)), false)
        } else {
            (o.push(up(c)), false)
        }
    }
}

/// The words of `s` joined by single spaces.
pub open spec fn words_joined(s: Seq<char>) -> Seq<char> {
    collapse_prefix(s, s.len() as int, |c: char| is_ws(c), ' ', |c: char| c).0
}

/// The key under which component names compare: words joined by single spaces, upper
/// case.
pub open spec fn name_key(s: Seq<char>) -> Seq<char> {
    unicode_uppercase(words_joined(s))
}

/// A separator inside a package name.
pub open spec fn package_sep(c: char) -> bool {
    is_ws(c) || c == '_' || c == '/' || c == '\\' || c == '.' || c == '-'
}

/// The key under which package names compare: the text after the last `:`, separators
/// collapsed to single `-`, ASCII letters upper-cased.
pub open spec fn package_key_of(s: Seq<char>) -> Seq<char> {
    let v = after_last_colon(s);
    collapse_prefix(v, v.len() as int, |c: char| package_sep(c), '-', |c: char| upper(c)).0
}

/// The key of a component name (see `name_key`).
pub fn component_name_key(value: &str) -> (r: String)
    ensures
        r@ == name_key(value@),
{
    let cs = chars_of(value);
    let mut out: Vec<char> = Vec::new();
    let mut pending = false;
    let mut i: usize = 0;
    while i < cs.len()
        invariant
            i <= cs.len(),
            cs@ == value@,
            (out@, pending) == collapse_prefix(cs@, i as int, |c: char| is_ws(c), ' ', |c: char| c),
        decreases cs.len() - i,
    {
        let c = cs[i];
        if is_whitespace(c) {
            pending = out.len() > 0;
        } else if pending {
            out.push(' ');
            out.push(c);
            pending = false;
        } else {
            out.push(c);
        }
        i = i + 1;
    }
    let s = string_from(out.as_slice());
    to_uppercase(s.as_str())
}

/// The key of a package name (see `package_key_of`).
pub fn package_key(value: &str) -> (r: String)
    ensures
        r@ == package_key_of(value@),
{
    let all = chars_of(value);
    let cs = after_last_colon_chars(all.as_slice());
    let mut out: Vec<char> = Vec::new();
    let mut pending = false;
    let mut i: usize = 0;
    while i < cs.len()
        invariant
            i <= cs.len(),
            cs@ == after_last_colon(value@),
            (out@, pending) == collapse_prefix(cs@, i as int, |c: char| package_sep(c), '-', |c: char| upper(c)),
        decreases cs.len() - i,
    {
        let c = cs[i];
        if is_whitespace(c) || c == '_' || c == '/' || c == '\\' || c == '.' || c == '-' {
            pending = out.len() > 0;
        } else if pending {
            out.push('-');
            out.push(to_upper(c));
            pending = false;
        } else {
            out.push(to_upper(c));
        }
        i = i + 1;
    }
    string_from(out.as_slice())
}

/// The text of `s` after its last `_`, `-` or whitespace.
pub open spec fn last_token(s: Seq<char>) -> Seq<char>
    decreases s.len(),
{
    if s.len() == 0 {
        s
    } else if s.last() == '_' || s.last() == '-' || is_ws(s.last()) {
        Seq::empty()
    } else {
        last_token(s.drop_last()).push(s.last())
    }
}

/// The LCSC number that a value ends with: its last token, when that is `C` or `c` and at
/// least three digits; upper-cased.
pub open spec fn lcsc_id_of(value: Seq<char>) -> Option<Seq<char>> {
    let t = last_token(value);
    if t.len() >= 4 && (t[0] == 'C' || t[0] == 'c') && forall|i: int| 1 <= i < t.len() ==> #[trigger] is_digit(t[i]) {
        Some(upper_seq(t))
    } else {
        None
    }
}

/// The LCSC number at the end of `value` (see `lcsc_id_of`).
pub fn extract_lcsc_id(value: &str) -> (r: Option<String>)
    ensures
        opt_string_view(r) == lcsc_id_of(value@),
{
    let cs = chars_of(value);
    let mut start: usize = cs.len();
    assert(cs@.take(start as int) =~= cs@);
    assert(cs@.skip(start as int) =~= Seq::<char>::empty());
    assert(last_token(cs@) =~= last_token(cs@.take(start as int)) + cs@.skip(start as int));
    while start > 0 && !(cs[start - 1] == '_' || cs[start - 1] == '-' || is_whitespace(cs[start - 1]))
        invariant
            start <= cs.len(),
            cs@ == value@,
            last_token(cs@) == last_token(cs@.take(start as int)) + cs@.skip(start as int),
        decreases start,
    {
        assert(cs@.take(start as int).drop_last() =~= cs@.take(start - 1));
        assert(cs@.skip(start - 1) =~= seq![cs@[start - 1]] + cs@.skip(start as int));
        start = start - 1;
    }
    assert(last_token(cs@.take(start as int)) == Seq::<char>::empty()) by {
        if start > 0 {
            assert(cs@.take(start as int).last() == cs@[start - 1]);
        }
    }
    let token = crate::sexpr::slice_range(cs.as_slice(), start, cs.len());
    assert(token@ =~= last_token(value@));
    if token.len() < 4 || !(token[0] == 'C' || token[0] == 'c') {
        return None;
    }
    let mut i: usize = 1;
    while i < token.len()
        invariant
            1 <= i <= token.len(),
            token@ == last_token(value@),
            token@.len() >= 4,
            token@[0] == 'C' || token@[0] == 'c',
            forall|j: int| 1 <= j < i ==> #[trigger] is_digit(token@[j]),
        decreases token.len() - i,
    {
        if !('0' <= token[i] && token[i] <= '9') {
            assert(!is_digit(token@[i as int]));
            return None;
        }
        i = i + 1;
    }
    let u = crate::text::upper_chars(token.as_slice());
    Some(string_from(u.as_slice()))
}

/// The order in which stock is taken: by priority, then by location name.
pub open spec fn location_lt(a: (u32, Seq<char>), b: (u32, Seq<char>)) -> bool {
    a.0 < b.0 || (a.0 == b.0 && seq_lt(a.1, b.1))
}

pub type LocView = (Seq<char>, i64, u32);

pub open spec fn loc_view(l: InventoryLocation) -> LocView {
    (l.location@, l.quantity, l.priority)
}

pub open spec fn loc_insert_pos(t: Seq<LocView>, x: LocView, n: int) -> int
    decreases n,
{
    if n <= 0 {
        0
    } else if location_lt((x.2, x.0), (t[n - 1].2, t[n - 1].0)) {
        loc_insert_pos(t, x, n - 1)
    } else {
        n
    }
}

/// The first `n` locations stably sorted by priority and name.
pub open spec fn sort_locations(ls: Seq<LocView>, n: int) -> Seq<LocView>
    decreases n,
{
    if n <= 0 {
        Seq::empty()
    } else {
        let t = sort_locations(ls, n - 1);
        t.insert(loc_insert_pos(t, ls[n - 1], t.len() as int), ls[n - 1])
    }
}

/// What is taken from the sorted locations from `k` on, with `remaining` still needed:
/// from each location what it holds, and all the rest from the last one.
pub open spec fn take_steps(ls: Seq<LocView>, remaining: int, k: int) -> Seq<(Seq<char>, int)>
    decreases ls.len() - k,
{
    if k < 0 || k >= ls.len() || remaining <= 0 {
        Seq::empty()
    } else {
        let available = if ls[k].1 > 0 {
            ls[k].1 as int
        } else {
            0
        };
        let q = if k + 1 == ls.len() {
            remaining
        } else if remaining < available {
            remaining
        } else {
            available
        };
        if q > 0 {
            seq![(ls[k].0, q)] + take_steps(ls, remaining - q, k + 1)
        } else {
            take_steps(ls, remaining, k + 1)
        }
    }
}

/// What is taken from the locations of a part for `required` pieces.
pub open spec fn allocation_plan(locations: Seq<LocView>, required: u64) -> Seq<(Seq<char>, int)> {
    take_steps(sort_locations(locations, locations.len() as int), (required as i64) as int, 0)
}

pub open spec fn allocation_view(a: InventoryAllocation) -> (Seq<char>, int) {
    (a.location@, a.quantity as int)
}

fn sorted_locations(locs: &Vec<InventoryLocation>) -> (r: Vec<(String, i64, u32)>)
    ensures
        r@.map_values(|x: (String, i64, u32)| (x.0@, x.1, x.2)) == sort_locations(
            locs@.map_values(|l: InventoryLocation| loc_view(l)),
            locs@.len() as int,
        ),
{
    let ghost lv = locs@.map_values(|l: InventoryLocation| loc_view(l));
    let mut sorted: Vec<(String, i64, u32)> = Vec::new();
    let mut k: usize = 0;
    while k < locs.len()
        invariant
            k <= locs@.len(),
            lv == locs@.map_values(|l: InventoryLocation| loc_view(l)),
            sorted@.map_values(|x: (String, i64, u32)| (x.0@, x.1, x.2)) == sort_locations(lv, k as int),
        decreases locs@.len() - k,
    {
        let l = &locs[k];
        let x = (l.location.clone(), l.quantity, l.priority);
        assert(lv[k as int] == (x.0@, x.1, x.2));
        let ghost t = sorted@.map_values(|x: (String, i64, u32)| (x.0@, x.1, x.2));
        let mut p = sorted.len();
        while p > 0 && (x.2 < sorted[p - 1].2 || (x.2 == sorted[p - 1].2 && str_lt(
            x.0.as_str(),
            sorted[p - 1].0.as_str(),
        )))
            invariant
                p <= sorted@.len(),
                t == sorted@.map_values(|x: (String, i64, u32)| (x.0@, x.1, x.2)),
                loc_insert_pos(t, (x.0@, x.1, x.2), t.len() as int) == loc_insert_pos(
                    t,
                    (x.0@, x.1, x.2),
                    p as int,
                ),
            decreases p,
        {
            p = p - 1;
        }
        sorted.insert(p, x);
        assert(sorted@.map_values(|x: (String, i64, u32)| (x.0@, x.1, x.2)) =~= t.insert(
            p as int,
            lv[k as int],
        ));
        k = k + 1;
    }
    sorted
}

/// The stock to take from the locations of `part` for `required` pieces (see
/// `take_steps`): locations in priority order, and any shortage left on the last one.
pub fn allocate(part: &InventoryPart, required: u64) -> (r: Vec<InventoryAllocation>)
    ensures
        r@.map_values(|a: InventoryAllocation| allocation_view(a)) == allocation_plan(
            part.locations@.map_values(|l: InventoryLocation| loc_view(l)),
            required,
        ),
        forall|i: int| 0 <= i < r@.len() ==> (#[trigger] r@[i]).part_id@ == part.id@,
{
    let sorted = sorted_locations(&part.locations);
    let ghost sv = sorted@.map_values(|x: (String, i64, u32)| (x.0@, x.1, x.2));
    let mut remaining: i64 = required as i64;
    let mut out: Vec<InventoryAllocation> = Vec::new();
    let mut k: usize = 0;
    let ghost start = remaining as int;
    while k < sorted.len() && remaining > 0
        invariant
            k <= sorted@.len(),
            sv == sorted@.map_values(|x: (String, i64, u32)| (x.0@, x.1, x.2)),
            out@.map_values(|a: InventoryAllocation| allocation_view(a)) + take_steps(sv, remaining as int, k as int)
                == take_steps(sv, start, 0),
            forall|i: int| 0 <= i < out@.len() ==> (#[trigger] out@[i]).part_id@ == part.id@,
        decreases sorted@.len() - k,
    {
        let (ref name, qty, _) = sorted[k];
        let available: i64 = if qty > 0 {
            qty
        } else {
            0
        };
        let quantity: i64 = if k + 1 == sorted.len() {
            remaining
        } else if remaining < available {
            remaining
        } else {
            available
        };
        let ghost before = out@.map_values(|a: InventoryAllocation| allocation_view(a));
        if quantity > 0 {
            out.push(InventoryAllocation { part_id: part.id.clone(), location: name.clone(), quantity });
            assert(out@.map_values(|a: InventoryAllocation| allocation_view(a)) =~= before.push(
                (sv[k as int].0, quantity as int),
            ));
            assert(before.push((sv[k as int].0, quantity as int)) + take_steps(sv, remaining - quantity, k + 1)
                =~= before + (seq![(sv[k as int].0, quantity as int)] + take_steps(sv, remaining - quantity, k + 1)));
            remaining = remaining - quantity;
        }
        k = k + 1;
    }
    proof {
        let v = out@.map_values(|a: InventoryAllocation| allocation_view(a));
        assert(take_steps(sv, remaining as int, k as int) == Seq::<(Seq<char>, int)>::empty());
        assert(v + Seq::<(Seq<char>, int)>::empty() =~= v);
    }
    out
}

/// The total taken in an allocation plan.
pub open spec fn total_taken(plan: Seq<(Seq<char>, int)>) -> int
    decreases plan.len(),
{
    if plan.len() == 0 {
        0
    } else {
        plan[0].1 + total_taken(plan.skip(1))
    }
}

proof fn lemma_take_steps_total(ls: Seq<LocView>, remaining: int, k: int)
    requires
        0 <= k < ls.len(),
        remaining > 0,
    ensures
        total_taken(take_steps(ls, remaining, k)) == remaining,
        forall|i: int| 0 <= i < take_steps(ls, remaining, k).len() ==> (#[trigger] take_steps(ls, remaining, k)[i]).1 > 0,
    decreases ls.len() - k,
{
    let available = if ls[k].1 > 0 {
        ls[k].1 as int
    } else {
        0
    };
    let q = if k + 1 == ls.len() {
        remaining
    } else if remaining < available {
        remaining
    } else {
        available
    };
    let s = take_steps(ls, remaining, k);
    if k + 1 == ls.len() {
        assert(take_steps(ls, 0, k + 1) == Seq::<(Seq<char>, int)>::empty());
        assert(s == seq![(ls[k].0, q)] + take_steps(ls, remaining - q, k + 1));
        assert(s.skip(1) =~= Seq::<(Seq<char>, int)>::empty());
        assert(total_taken(s.skip(1)) == 0);
        assert(s[0].1 == remaining);
    } else if q > 0 {
        assert(s == seq![(ls[k].0, q)] + take_steps(ls, remaining - q, k + 1));
        if remaining - q > 0 {
            lemma_take_steps_total(ls, remaining - q, k + 1);
        } else {
            assert(take_steps(ls, remaining - q, k + 1) == Seq::<(Seq<char>, int)>::empty());
        }
        let rest = take_steps(ls, remaining - q, k + 1);
        assert(s.skip(1) =~= rest);
        assert(total_taken(rest) == remaining - q);
        assert forall|i: int| 0 <= i < s.len() implies (#[trigger] s[i]).1 > 0 by {
            if i > 0 {
                assert(s[i] == rest[i - 1]);
            }
        }
    } else {
        lemma_take_steps_total(ls, remaining, k + 1);
    }
}

/// Law: for a part with at least one location, the allocation takes exactly the required
/// number of pieces, in positive amounts.
pub proof fn law_allocation_covers_requirement(locations: Seq<LocView>, required: u64)
    requires
        locations.len() > 0,
        0 < required <= i64::MAX,
    ensures
        total_taken(allocation_plan(locations, required)) == required,
        forall|i: int| 0 <= i < allocation_plan(locations, required).len() ==> (#[trigger] allocation_plan(locations, required)[i]).1 > 0,
{
    lemma_sort_locations_len(locations, locations.len() as int);
    let sorted = sort_locations(locations, locations.len() as int);
    assert((required as i64) as int == required as int);
    lemma_take_steps_total(sorted, required as int, 0);
}

proof fn lemma_loc_insert_pos_props(t: Seq<LocView>, x: LocView, n: int)
    requires
        0 <= n <= t.len(),
    ensures
        0 <= loc_insert_pos(t, x, n) <= n,
        forall|i: int| loc_insert_pos(t, x, n) <= i < n ==> x.2 <= (#[trigger] t[i]).2,
        loc_insert_pos(t, x, n) > 0 ==> t[loc_insert_pos(t, x, n) - 1].2 <= x.2,
    decreases n,
{
    if n > 0 && location_lt((x.2, x.0), (t[n - 1].2, t[n - 1].0)) {
        lemma_loc_insert_pos_props(t, x, n - 1);
    }
}

/// The stably sorted locations: as many as given, priorities never decreasing, the first
/// one of least priority number, each one of the given locations.
proof fn lemma_sort_locations_props(ls: Seq<LocView>, n: int)
    requires
        0 <= n <= ls.len(),
    ensures
        sort_locations(ls, n).len() == n,
        forall|i: int, j: int| 0 <= i < j < n ==> (#[trigger] sort_locations(ls, n)[i]).2 <= (
        #[trigger] sort_locations(ls, n)[j]).2,
        n > 0 ==> forall|i: int| 0 <= i < n ==> sort_locations(ls, n)[0].2 <= (#[trigger] ls[i]).2,
        forall|i: int| 0 <= i < n ==> exists|k: int| 0 <= k < n && #[trigger] sort_locations(ls, n)[i] == ls[k],
    decreases n,
{
    if n > 0 {
        lemma_sort_locations_props(ls, n - 1);
        let t = sort_locations(ls, n - 1);
        let x = ls[n - 1];
        let pos = loc_insert_pos(t, x, t.len() as int);
        lemma_loc_insert_pos_props(t, x, t.len() as int);
        let u = sort_locations(ls, n);
        assert(u == t.insert(pos, x));
        assert forall|i: int, j: int| 0 <= i < j < n implies (#[trigger] u[i]).2 <= (#[trigger] u[j]).2 by {
            if j < pos {
                assert(u[i] == t[i] && u[j] == t[j]);
            } else if j == pos {
                assert(u[i] == t[i] && u[j] == x);
                if i < pos - 1 {
                    assert(t[i].2 <= t[pos - 1].2);
                }
            } else if i > pos {
                assert(u[i] == t[i - 1] && u[j] == t[j - 1]);
            } else if i == pos {
                assert(u[i] == x && u[j] == t[j - 1]);
            } else {
                assert(u[i] == t[i] && u[j] == t[j - 1]);
            }
        }
        if pos == 0 {
            assert(u[0] == x);
            if n > 1 {
                assert(x.2 <= t[0].2);
            }
        } else {
            assert(u[0] == t[0]);
            if pos > 1 {
                assert(t[0].2 <= t[pos - 1].2);
            }
        }
        assert forall|i: int| 0 <= i < n implies u[0].2 <= (#[trigger] ls[i]).2 by {
            if i < n - 1 {
                assert(t[0].2 <= ls[i].2);
            }
        }
        assert forall|i: int| 0 <= i < n implies exists|k: int| 0 <= k < n && #[trigger] u[i] == ls[k] by {
            if i < pos {
                assert(u[i] == t[i]);
                let k = choose|k: int| 0 <= k < n - 1 && #[trigger] t[i] == ls[k];
                assert(u[i] == ls[k]);
            } else if i == pos {
                assert(u[i] == ls[n - 1]);
            } else {
                assert(u[i] == t[i - 1]);
                let k = choose|k: int| 0 <= k < n - 1 && #[trigger] t[i - 1] == ls[k];
                assert(u[i] == ls[k]);
            }
        }
    }
}

/// Law: stock is taken first from the location with the least priority number: when one
/// location has a strictly smaller priority number than every other and holds enough for
/// the request, the whole request is one allocation from that location, whatever the
/// names and holdings of the others.
pub proof fn law_allocation_takes_the_first_priority(locations: Seq<LocView>, m: int, required: u64)
    requires
        0 <= m < locations.len(),
        forall|i: int| 0 <= i < locations.len() && i != m ==> locations[m].2 < (#[trigger] locations[i]).2,
        0 < required,
        required as int <= locations[m].1,
    ensures
        allocation_plan(locations, required) == seq![(locations[m].0, required as int)],
{
    let n = locations.len() as int;
    lemma_sort_locations_props(locations, n);
    let sorted = sort_locations(locations, n);
    let k = choose|k: int| 0 <= k < n && #[trigger] sorted[0] == locations[k];
    assert(sorted[0].2 <= locations[m].2);
    if k != m {
        assert(locations[m].2 < locations[k].2);
    }
    assert(sorted[0] == locations[m]);
    assert((required as i64) as int == required as int);
    let rest = take_steps(sorted, 0, 1);
    assert(rest == Seq::<(Seq<char>, int)>::empty());
    assert(take_steps(sorted, required as int, 0) == seq![(sorted[0].0, required as int)] + rest);
    assert(seq![(sorted[0].0, required as int)] + rest =~= seq![(locations[m].0, required as int)]);
}

proof fn lemma_sort_locations_len(ls: Seq<LocView>, n: int)
    requires
        0 <= n <= ls.len(),
    ensures
        sort_locations(ls, n).len() == n,
    decreases n,
{
    if n > 0 {
        lemma_sort_locations_len(ls, n - 1);
        lemma_loc_insert_pos_range(sort_locations(ls, n - 1), ls[n - 1], n - 1);
    }
}

proof fn lemma_loc_insert_pos_range(t: Seq<LocView>, x: LocView, n: int)
    requires
        0 <= n <= t.len(),
    ensures
        0 <= loc_insert_pos(t, x, n) <= n,
    decreases n,
{
    if n > 0 {
        lemma_loc_insert_pos_range(t, x, n - 1);
    }
}


fn own(s: &String) -> (r: String)
    ensures
        r@ == s@,
{
    s.clone()
}

/// The part number a part is known by: its library's LCSC number, else its supplier's.
pub open spec fn supplier_number(p: InventoryPart) -> Option<Seq<char>> {
    match p.library_lcsc {
        Some(l) => Some(l@),
        None => opt_string_view(p.supplier_part_number),
    }
}

fn part_supplier_part_number(part: &InventoryPart) -> (r: Option<&String>)
    ensures
        match r {
            Some(s) => supplier_number(*part) == Some(s@),
            None => supplier_number(*part) is None,
        },
{
    match &part.library_lcsc {
        Some(l) => Some(l),
        None => match &part.supplier_part_number {
            Some(s) => Some(s),
            None => None,
        },
    }
}

/// How a part is shown: name, package, and supplier number when it has one.
pub open spec fn label_of(p: InventoryPart) -> Seq<char> {
    p.name@ + " · "@ + p.package@ + match p.supplier_part_number {
        Some(v) => " · "@ + v@,
        None => Seq::empty(),
    }
}

/// How part `part` is shown (see `label_of`).
pub fn part_label(part: &InventoryPart) -> (r: String)
    ensures
        r@ == label_of(*part),
{
    let mut v: Vec<char> = Vec::new();
    extend_str(&mut v, part.name.as_str());
    extend_str(&mut v, " · ");
    extend_str(&mut v, part.package.as_str());
    match &part.supplier_part_number {
        Some(s) => {
            extend_str(&mut v, " · ");
            extend_str(&mut v, s.as_str());
        },
        None => {},
    }
    string_from(v.as_slice())
}

/// Part `p` may be what row `row` asks for: by supplier number when the row has one, else
/// by name and package; never when the row's supplier numbers conflict.
pub open spec fn row_matches(row: BomRow, p: InventoryPart) -> bool {
    !row.supplier_part_number_conflict && match row.supplier_part_number {
        Some(s) => match supplier_number(p) {
            Some(v) => identifier_key(v) == identifier_key(s@),
            None => false,
        },
        None => name_key(p.name@) == name_key(row.name@) && package_key_of(p.package@) == package_key_of(
            row.package@,
        ),
    }
}

pub type CandView = (Seq<char>, Seq<char>, bool);

pub open spec fn cand_view(c: InventoryCandidate) -> CandView {
    (c.id@, c.label@, c.exact_supplier_match)
}

/// The candidates among the first `n` parts, in order.
pub open spec fn unsorted_candidates(row: BomRow, parts: Seq<InventoryPart>, n: int) -> Seq<CandView>
    decreases n,
{
    if n <= 0 {
        Seq::empty()
    } else {
        let prev = unsorted_candidates(row, parts, n - 1);
        let p = parts[n - 1];
        if row_matches(row, p) {
            prev.push((p.id@, label_of(p), row.supplier_part_number is Some))
        } else {
            prev
        }
    }
}

pub open spec fn cand_insert_pos(t: Seq<CandView>, x: CandView, n: int) -> int
    decreases n,
{
    if n <= 0 {
        0
    } else if seq_lt(x.1, t[n - 1].1) {
        cand_insert_pos(t, x, n - 1)
    } else {
        n
    }
}

/// The first `n` candidates stably sorted by label.
pub open spec fn sort_candidates(cs: Seq<CandView>, n: int) -> Seq<CandView>
    decreases n,
{
    if n <= 0 {
        Seq::empty()
    } else {
        let t = sort_candidates(cs, n - 1);
        t.insert(cand_insert_pos(t, cs[n - 1], t.len() as int), cs[n - 1])
    }
}

/// The parts in stock that row `row` may stand for, sorted by label.
pub open spec fn candidates_for(row: BomRow, parts: Seq<InventoryPart>) -> Seq<CandView> {
    let u = unsorted_candidates(row, parts, parts.len() as int);
    sort_candidates(u, u.len() as int)
}

/// Some part among the first `n` that matches the row has id `id`.
pub open spec fn matching_id(row: BomRow, parts: Seq<InventoryPart>, n: int, id: Seq<char>) -> bool {
    exists|j: int| 0 <= j < n && row_matches(row, #[trigger] parts[j]) && parts[j].id@ == id
}

proof fn lemma_unsorted_from_parts(row: BomRow, parts: Seq<InventoryPart>, n: int)
    requires
        0 <= n <= parts.len(),
    ensures
        forall|i: int|
            0 <= i < unsorted_candidates(row, parts, n).len() ==> matching_id(
                row,
                parts,
                n,
                #[trigger] unsorted_candidates(row, parts, n)[i].0,
            ),
    decreases n,
{
    if n > 0 {
        lemma_unsorted_from_parts(row, parts, n - 1);
        let prev = unsorted_candidates(row, parts, n - 1);
        let cur = unsorted_candidates(row, parts, n);
        assert forall|i: int| 0 <= i < cur.len() implies matching_id(row, parts, n, #[trigger] cur[i].0) by {
            if i < prev.len() {
                assert(cur[i] == prev[i]);
                assert(matching_id(row, parts, n - 1, prev[i].0));
                let j = choose|j: int| 0 <= j < n - 1 && row_matches(row, #[trigger] parts[j]) && parts[j].id@ == prev[i].0;
                assert(0 <= j < n);
            } else {
                assert(row_matches(row, parts[n - 1]));
                assert(cur[i].0 == parts[n - 1].id@);
            }
        }
    }
}

proof fn lemma_cand_insert_pos(t: Seq<CandView>, x: CandView, n: int)
    requires
        0 <= n <= t.len(),
    ensures
        0 <= cand_insert_pos(t, x, n) <= n,
    decreases n,
{
    if n > 0 && seq_lt(x.1, t[n - 1].1) {
        lemma_cand_insert_pos(t, x, n - 1);
    }
}

proof fn lemma_sorted_from_input(cs: Seq<CandView>, n: int)
    requires
        0 <= n <= cs.len(),
    ensures
        sort_candidates(cs, n).len() == n,
        forall|i: int| 0 <= i < n ==> exists|j: int| 0 <= j < n && #[trigger] sort_candidates(cs, n)[i] == cs[j],
    decreases n,
{
    if n > 0 {
        lemma_sorted_from_input(cs, n - 1);
        let t = sort_candidates(cs, n - 1);
        let pos = cand_insert_pos(t, cs[n - 1], t.len() as int);
        lemma_cand_insert_pos(t, cs[n - 1], t.len() as int);
        let u = sort_candidates(cs, n);
        assert(u == t.insert(pos, cs[n - 1]));
        assert forall|i: int| 0 <= i < n implies exists|j: int| 0 <= j < n && #[trigger] u[i] == cs[j] by {
            if i < pos {
                assert(u[i] == t[i]);
                let j = choose|j: int| 0 <= j < n - 1 && #[trigger] t[i] == cs[j];
                assert(u[i] == cs[j]);
            } else if i == pos {
                assert(u[i] == cs[n - 1]);
            } else {
                assert(u[i] == t[i - 1]);
                let j = choose|j: int| 0 <= j < n - 1 && #[trigger] t[i - 1] == cs[j];
                assert(u[i] == cs[j]);
            }
        }
    }
}

/// Law: for a row without a supplier part number, every candidate is a part in stock with
/// the row's component name key and the row's package key; a part whose name or package key
/// differs is never offered. For a row with one, every candidate is a part whose supplier
/// number has the row's key.
pub proof fn law_candidates_match_the_row(row: BomRow, parts: Seq<InventoryPart>)
    ensures
        forall|i: int|
            #![trigger candidates_for(row, parts)[i]]
            0 <= i < candidates_for(row, parts).len() ==> exists|j: int|
                #![trigger parts[j]]
                0 <= j < parts.len() && parts[j].id@ == candidates_for(row, parts)[i].0
                    && !row.supplier_part_number_conflict && match row.supplier_part_number {
                    None => name_key(parts[j].name@) == name_key(row.name@) && package_key_of(parts[j].package@)
                        == package_key_of(row.package@),
                    Some(s) => supplier_number(parts[j]) matches Some(v) && identifier_key(v) == identifier_key(s@),
                },
{
    let u = unsorted_candidates(row, parts, parts.len() as int);
    lemma_unsorted_from_parts(row, parts, parts.len() as int);
    lemma_sorted_from_input(u, u.len() as int);
    let c = candidates_for(row, parts);
    assert forall|i: int| #![trigger c[i]] 0 <= i < c.len() implies exists|j: int|
        #![trigger parts[j]]
        0 <= j < parts.len() && parts[j].id@ == c[i].0 && !row.supplier_part_number_conflict
            && match row.supplier_part_number {
            None => name_key(parts[j].name@) == name_key(row.name@) && package_key_of(parts[j].package@)
                == package_key_of(row.package@),
            Some(s) => supplier_number(parts[j]) matches Some(v) && identifier_key(v) == identifier_key(s@),
        } by {
        let k = choose|k: int| 0 <= k < u.len() && #[trigger] c[i] == u[k];
        assert(matching_id(row, parts, parts.len() as int, u[k].0));
        let j = choose|j: int| 0 <= j < parts.len() && row_matches(row, #[trigger] parts[j]) && parts[j].id@ == u[k].0;
        assert(row_matches(row, parts[j]));
    }
}

fn part_matches(row: &BomRow, p: &InventoryPart) -> (r: bool)
    ensures
        r == row_matches(*row, *p),
{
    if row.supplier_part_number_conflict {
        return false;
    }
    match &row.supplier_part_number {
        Some(s) => match part_supplier_part_number(p) {
            Some(v) => {
                let a = normalize_identifier(v.as_str());
                let b = normalize_identifier(s.as_str());
                str_eq(a.as_str(), b.as_str())
            },
            None => false,
        },
        None => {
            let a = component_name_key(p.name.as_str());
            let b = component_name_key(row.name.as_str());
            let c = package_key(p.package.as_str());
            let d = package_key(row.package.as_str());
            str_eq(a.as_str(), b.as_str()) && str_eq(c.as_str(), d.as_str())
        },
    }
}

/// The parts in stock that row `row` may stand for (see `candidates_for`).
pub fn find_candidates(row: &BomRow, parts: &[InventoryPart]) -> (r: Vec<InventoryCandidate>)
    ensures
        r@.map_values(|c: InventoryCandidate| cand_view(c)) == candidates_for(*row, parts@),
{
    let mut found: Vec<InventoryCandidate> = Vec::new();
    let mut k: usize = 0;
    let exact = row.supplier_part_number.is_some();
    while k < parts.len()
        invariant
            k <= parts@.len(),
            exact == row.supplier_part_number is Some,
            found@.map_values(|c: InventoryCandidate| cand_view(c)) == unsorted_candidates(*row, parts@, k as int),
        decreases parts@.len() - k,
    {
        let p = &parts[k];
        if part_matches(row, p) {
            let ghost before = found@.map_values(|c: InventoryCandidate| cand_view(c));
            found.push(InventoryCandidate { id: own(&p.id), label: part_label(p), exact_supplier_match: exact });
            assert(found@.map_values(|c: InventoryCandidate| cand_view(c)) =~= before.push(
                (p.id@, label_of(*p), exact),
            ));
        }
        k = k + 1;
    }
    let ghost u = found@.map_values(|c: InventoryCandidate| cand_view(c));
    let mut sorted: Vec<InventoryCandidate> = Vec::new();
    let mut rest = found;
    let ghost orig = rest@;
    let ghost mut n: int = 0;
    while rest.len() > 0
        invariant
            0 <= n <= orig.len(),
            u == orig.map_values(|c: InventoryCandidate| cand_view(c)),
            rest@ == orig.skip(n),
            sorted@.map_values(|c: InventoryCandidate| cand_view(c)) == sort_candidates(u, n),
        decreases rest.len(),
    {
        let x = rest.remove(0);
        assert(x == orig[n]);
        let ghost t = sorted@.map_values(|c: InventoryCandidate| cand_view(c));
        let mut p = sorted.len();
        while p > 0 && str_lt(x.label.as_str(), sorted[p - 1].label.as_str())
            invariant
                p <= sorted@.len(),
                t == sorted@.map_values(|c: InventoryCandidate| cand_view(c)),
                cand_insert_pos(t, cand_view(x), t.len() as int) == cand_insert_pos(t, cand_view(x), p as int),
            decreases p,
        {
            p = p - 1;
        }
        sorted.insert(p, x);
        assert(sorted@.map_values(|c: InventoryCandidate| cand_view(c)) =~= t.insert(p as int, cand_view(x)));
        proof {
            n = n + 1;
            assert(rest@ =~= orig.skip(n));
            assert(u[n - 1] == cand_view(x));
        }
    }
    sorted
}

/// A text trimmed, or nothing when it is blank.
pub open spec fn trimmed_text(v: Option<Seq<char>>) -> Option<Seq<char>> {
    match v {
        Some(t) => if trim(t).len() == 0 {
            None
        } else {
            Some(trim(t))
        },
        None => None,
    }
}

/// An optional text trimmed, or `None` when it is blank.
pub fn normalize_text(value: Option<String>) -> (r: Option<String>)
    ensures
        opt_string_view(r) == trimmed_text(opt_string_view(value)),
{
    match value {
        Some(v) => {
            let t = trim_str(v.as_str());
            if t.as_str().is_empty() {
                None
            } else {
                Some(t)
            }
        },
        None => None,
    }
}

/// An optional part number trimmed and upper-cased, or `None` when it is blank.
pub fn normalize_optional(value: Option<String>) -> (r: Option<String>)
    ensures
        opt_string_view(r) == match value {
            Some(v) => if unicode_uppercase(trim(v@)).len() == 0 {
                None
            } else {
                Some(unicode_uppercase(trim(v@)))
            },
            None => None,
        },
{
    match value {
        Some(v) => {
            let t = trim_str(v.as_str());
            let u = to_uppercase(t.as_str());
            if u.as_str().is_empty() {
                None
            } else {
                Some(u)
            }
        },
        None => None,
    }
}

/// A required text, trimmed; refused when it is blank.
pub fn required_text(value: &str, label: &str) -> (r: Result<String, String>)
    ensures
        match r {
            Ok(v) => trim(value@).len() > 0 && v@ == trim(value@),
            Err(m) => trim(value@).len() == 0 && m@ == label@ + " is required"@,
        },
{
    let t = trim_str(value);
    if t.as_str().is_empty() {
        let mut m: Vec<char> = Vec::new();
        extend_str(&mut m, label);
        extend_str(&mut m, " is required");
        Err(string_from(m.as_slice()))
    } else {
        Ok(t)
    }
}


/// The non-blank locations among the first `n`, with their names trimmed.
pub open spec fn kept_locations(ls: Seq<LocView>, n: int) -> Seq<LocView>
    decreases n,
{
    if n <= 0 {
        Seq::empty()
    } else {
        let p = kept_locations(ls, n - 1);
        let t = trim(ls[n - 1].0);
        if t.len() > 0 {
            p.push((t, ls[n - 1].1, ls[n - 1].2))
        } else {
            p
        }
    }
}

/// The name of the first location (from position `j` on) whose name an earlier location
/// already has.
pub open spec fn first_duplicate(ks: Seq<LocView>, j: int) -> Option<Seq<char>>
    decreases ks.len() - j,
{
    if j < 0 || j >= ks.len() {
        None
    } else if exists|i: int| 0 <= i < j && #[trigger] ks[i].0 == ks[j].0 {
        Some(ks[j].0)
    } else {
        first_duplicate(ks, j + 1)
    }
}

pub open spec fn prio_insert_pos(t: Seq<LocView>, x: LocView, n: int) -> int
    decreases n,
{
    if n <= 0 {
        0
    } else if x.2 < t[n - 1].2 {
        prio_insert_pos(t, x, n - 1)
    } else {
        n
    }
}

/// The first `n` locations stably sorted by priority.
pub open spec fn sort_by_priority(ls: Seq<LocView>, n: int) -> Seq<LocView>
    decreases n,
{
    if n <= 0 {
        Seq::empty()
    } else {
        let t = sort_by_priority(ls, n - 1);
        t.insert(prio_insert_pos(t, ls[n - 1], t.len() as int), ls[n - 1])
    }
}

/// The locations of a part as saved: blank ones dropped, names trimmed, each name once,
/// in priority order with priorities renumbered from zero; or the first repeated name.
pub open spec fn normalized_locations(ls: Seq<LocView>) -> Result<Seq<LocView>, Seq<char>> {
    let ks = kept_locations(ls, ls.len() as int);
    match first_duplicate(ks, 0) {
        Some(name) => Err("Duplicate location: "@ + name),
        None => {
            let sorted = sort_by_priority(ks, ks.len() as int);
            Ok(Seq::new(sorted.len(), |i: int| (sorted[i].0, sorted[i].1, i as u32)))
        },
    }
}

/// The locations of a part prepared for saving (see `normalized_locations`).
pub fn normalize_locations(locations: Vec<InventoryLocation>) -> (r: Result<Vec<InventoryLocation>, String>)
    ensures
        match r {
            Ok(v) => normalized_locations(locations@.map_values(|l: InventoryLocation| loc_view(l))) == Ok::<
                Seq<LocView>,
                Seq<char>,
            >(v@.map_values(|l: InventoryLocation| loc_view(l))),
            Err(m) => normalized_locations(locations@.map_values(|l: InventoryLocation| loc_view(l))) == Err::<
                Seq<LocView>,
                Seq<char>,
            >(m@),
        },
{
    let ghost lv = locations@.map_values(|l: InventoryLocation| loc_view(l));
    let mut kept: Vec<InventoryLocation> = Vec::new();
    let mut rest = locations;
    let ghost orig = rest@;
    let ghost mut n: int = 0;
    while rest.len() > 0
        invariant
            0 <= n <= orig.len(),
            lv == orig.map_values(|l: InventoryLocation| loc_view(l)),
            rest@ == orig.skip(n),
            kept@.map_values(|l: InventoryLocation| loc_view(l)) == kept_locations(lv, n),
        decreases rest.len(),
    {
        let l = rest.remove(0);
        assert(l == orig[n]);
        let t = trim_str(l.location.as_str());
        if !t.as_str().is_empty() {
            let ghost before = kept@.map_values(|l: InventoryLocation| loc_view(l));
            kept.push(InventoryLocation { location: t, quantity: l.quantity, priority: l.priority });
            assert(kept@.map_values(|l: InventoryLocation| loc_view(l)) =~= before.push(
                (trim(lv[n].0), lv[n].1, lv[n].2),
            ));
        }
        proof {
            n = n + 1;
            assert(rest@ =~= orig.skip(n));
        }
    }
    let ghost ks = kept@.map_values(|l: InventoryLocation| loc_view(l));
    assert(ks == kept_locations(lv, lv.len() as int));
    let mut j: usize = 0;
    while j < kept.len()
        invariant
            j <= kept@.len(),
            ks == kept@.map_values(|l: InventoryLocation| loc_view(l)),
            ks == kept_locations(lv, lv.len() as int),
            lv == locations@.map_values(|l: InventoryLocation| loc_view(l)),
            first_duplicate(ks, 0) == first_duplicate(ks, j as int),
        decreases kept@.len() - j,
    {
        let mut i: usize = 0;
        let mut dup = false;
        while i < j
            invariant
                i <= j < kept@.len(),
                ks == kept@.map_values(|l: InventoryLocation| loc_view(l)),
                dup <==> exists|x: int| 0 <= x < i && #[trigger] ks[x].0 == ks[j as int].0,
            decreases j - i,
        {
            if str_eq(kept[i].location.as_str(), kept[j].location.as_str()) {
                assert(ks[i as int].0 == ks[j as int].0);
                dup = true;
            }
            i = i + 1;
        }
        if dup {
            let mut m: Vec<char> = Vec::new();
            extend_str(&mut m, "Duplicate location: ");
            extend_str(&mut m, kept[j].location.as_str());
            return Err(string_from(m.as_slice()));
        }
        j = j + 1;
    }
    let mut sorted: Vec<InventoryLocation> = Vec::new();
    let mut rest2 = kept;
    let ghost orig2 = rest2@;
    let ghost mut q: int = 0;
    while rest2.len() > 0
        invariant
            0 <= q <= orig2.len(),
            ks == orig2.map_values(|l: InventoryLocation| loc_view(l)),
            rest2@ == orig2.skip(q),
            sorted@.map_values(|l: InventoryLocation| loc_view(l)) == sort_by_priority(ks, q),
        decreases rest2.len(),
    {
        let x = rest2.remove(0);
        assert(x == orig2[q]);
        let ghost t = sorted@.map_values(|l: InventoryLocation| loc_view(l));
        let mut p = sorted.len();
        while p > 0 && x.priority < sorted[p - 1].priority
            invariant
                p <= sorted@.len(),
                t == sorted@.map_values(|l: InventoryLocation| loc_view(l)),
                prio_insert_pos(t, loc_view(x), t.len() as int) == prio_insert_pos(t, loc_view(x), p as int),
            decreases p,
        {
            p = p - 1;
        }
        sorted.insert(p, x);
        assert(sorted@.map_values(|l: InventoryLocation| loc_view(l)) =~= t.insert(p as int, loc_view(x)));
        proof {
            q = q + 1;
            assert(rest2@ =~= orig2.skip(q));
            assert(ks[q - 1] == loc_view(x));
        }
    }
    let ghost sv = sorted@.map_values(|l: InventoryLocation| loc_view(l));
    let mut out: Vec<InventoryLocation> = Vec::new();
    let mut k: usize = 0;
    while k < sorted.len()
        invariant
            k <= sorted@.len(),
            sv == sorted@.map_values(|l: InventoryLocation| loc_view(l)),
            out@.len() == k,
            forall|i: int| 0 <= i < k ==> #[trigger] loc_view(out@[i]) == (sv[i].0, sv[i].1, i as u32),
        decreases sorted@.len() - k,
    {
        let l = &sorted[k];
        #[verifier::truncate]
        let prio: u32 = k as u32;
        out.push(InventoryLocation { location: l.location.clone(), quantity: l.quantity, priority: prio });
        assert(loc_view(out@[k as int]) == (sv[k as int].0, sv[k as int].1, k as u32));
        k = k + 1;
    }
    assert(out@.map_values(|l: InventoryLocation| loc_view(l)) =~= Seq::new(
        sv.len(),
        |i: int| (sv[i].0, sv[i].1, i as u32),
    ));
    Ok(out)
}


pub type LibCandView = (Seq<char>, Seq<char>, Seq<char>, bool, bool, Seq<char>, Seq<char>, Seq<char>);

pub open spec fn lib_cand_view(c: InventoryLibraryCandidate) -> LibCandView {
    (
        c.library_key@,
        c.lcsc_part@,
        c.label@,
        c.has_model,
        c.already_in_inventory,
        c.source_kind@,
        c.source_file@,
        c.symbol_name@,
    )
}

/// Library part `l` may be what row `row` asks for: by LCSC number when the row has a
/// supplier number, else by value and package.
pub open spec fn library_matches(row: BomRow, l: InventoryLibraryPart) -> bool {
    match row.supplier_part_number {
        Some(s) => identifier_key(l.lcsc_part@) == identifier_key(s@),
        None => name_key(l.value@) == name_key(row.name@) && package_key_of(l.package@) == package_key_of(
            row.package@,
        ),
    }
}

/// How a library part is shown.
pub open spec fn library_label(l: InventoryLibraryPart) -> Seq<char> {
    l.value@ + " · "@ + (if l.package@.len() == 0 {
        "封装待补充"@
    } else {
        l.package@
    }) + " · "@ + (if l.lcsc_part@.len() == 0 {
        "无供应商编号"@
    } else {
        l.lcsc_part@
    }) + " · "@ + l.source_kind@
}

/// Stock part `p` already stands for library part `l`: by file and symbol when `l` has no
/// LCSC number, else by that number in any ASCII letter case.
pub open spec fn stocks_library_part(p: InventoryPart, l: InventoryLibraryPart) -> bool {
    if l.lcsc_part@.len() == 0 {
        opt_string_view(p.library_source_file) == Some(l.source_file@) && opt_string_view(
            p.library_symbol_name,
        ) == Some(l.symbol_name@)
    } else {
        match supplier_number(p) {
            Some(v) => crate::text::lower_seq(v) == crate::text::lower_seq(l.lcsc_part@),
            None => false,
        }
    }
}

pub open spec fn in_stock(parts: Seq<InventoryPart>, l: InventoryLibraryPart) -> bool {
    exists|i: int| 0 <= i < parts.len() && stocks_library_part(#[trigger] parts[i], l)
}

/// The library candidates among the first `n` library parts, in order.
pub open spec fn unsorted_library_candidates(
    row: BomRow,
    parts: Seq<InventoryPart>,
    libs: Seq<InventoryLibraryPart>,
    n: int,
) -> Seq<LibCandView>
    decreases n,
{
    if n <= 0 {
        Seq::empty()
    } else {
        let prev = unsorted_library_candidates(row, parts, libs, n - 1);
        let l = libs[n - 1];
        if library_matches(row, l) {
            prev.push(
                (
                    l.library_key@,
                    l.lcsc_part@,
                    library_label(l),
                    l.has_model,
                    in_stock(parts, l),
                    l.source_kind@,
                    l.source_file@,
                    l.symbol_name@,
                ),
            )
        } else {
            prev
        }
    }
}

pub open spec fn lib_insert_pos(t: Seq<LibCandView>, x: LibCandView, n: int) -> int
    decreases n,
{
    if n <= 0 {
        0
    } else if seq_lt(x.2, t[n - 1].2) {
        lib_insert_pos(t, x, n - 1)
    } else {
        n
    }
}

/// The first `n` library candidates stably sorted by label.
pub open spec fn sort_library_candidates(cs: Seq<LibCandView>, n: int) -> Seq<LibCandView>
    decreases n,
{
    if n <= 0 {
        Seq::empty()
    } else {
        let t = sort_library_candidates(cs, n - 1);
        t.insert(lib_insert_pos(t, cs[n - 1], t.len() as int), cs[n - 1])
    }
}

/// The first `n` candidates without those whose library key repeats the one kept before.
pub open spec fn dedup_by_key(cs: Seq<LibCandView>, n: int) -> Seq<LibCandView>
    decreases n,
{
    if n <= 0 {
        Seq::empty()
    } else {
        let prev = dedup_by_key(cs, n - 1);
        if prev.len() > 0 && prev.last().0 == cs[n - 1].0 {
            prev
        } else {
            prev.push(cs[n - 1])
        }
    }
}

/// The library parts that row `row` may stand for: none when its supplier numbers
/// conflict; sorted by label, repeated library keys dropped.
pub open spec fn library_candidates_for(row: BomRow, parts: Seq<InventoryPart>, libs: Seq<InventoryLibraryPart>) -> Seq<LibCandView> {
    if row.supplier_part_number_conflict {
        Seq::empty()
    } else {
        let u = unsorted_library_candidates(row, parts, libs, libs.len() as int);
        let sorted = sort_library_candidates(u, u.len() as int);
        dedup_by_key(sorted, sorted.len() as int)
    }
}

pub fn eq_ignore_ascii_case(a: &str, b: &str) -> (r: bool)
    ensures
        r == (crate::text::lower_seq(a@) == crate::text::lower_seq(b@)),
{
    let la = crate::text::lower_chars(chars_of(a).as_slice());
    let lb = crate::text::lower_chars(chars_of(b).as_slice());
    chars_eq(la.as_slice(), lb.as_slice())
}

fn stocks(p: &InventoryPart, l: &InventoryLibraryPart) -> (r: bool)
    ensures
        r == stocks_library_part(*p, *l),
{
    if l.lcsc_part.as_str().is_empty() {
        let a = match &p.library_source_file {
            Some(f) => str_eq(f.as_str(), l.source_file.as_str()),
            None => false,
        };
        let b = match &p.library_symbol_name {
            Some(n) => str_eq(n.as_str(), l.symbol_name.as_str()),
            None => false,
        };
        a && b
    } else {
        match part_supplier_part_number(p) {
            Some(v) => eq_ignore_ascii_case(v.as_str(), l.lcsc_part.as_str()),
            None => false,
        }
    }
}

fn any_stocks(parts: &[InventoryPart], l: &InventoryLibraryPart) -> (r: bool)
    ensures
        r == in_stock(parts@, *l),
{
    let mut k: usize = 0;
    while k < parts.len()
        invariant
            k <= parts@.len(),
            forall|i: int| 0 <= i < k ==> !stocks_library_part(#[trigger] parts@[i], *l),
        decreases parts@.len() - k,
    {
        if stocks(&parts[k], l) {
            return true;
        }
        k = k + 1;
    }
    false
}

fn library_label_of(l: &InventoryLibraryPart) -> (r: String)
    ensures
        r@ == library_label(*l),
{
    let mut v: Vec<char> = Vec::new();
    extend_str(&mut v, l.value.as_str());
    extend_str(&mut v, " · ");
    if l.package.as_str().is_empty() {
        extend_str(&mut v, "封装待补充");
    } else {
        extend_str(&mut v, l.package.as_str());
    }
    extend_str(&mut v, " · ");
    if l.lcsc_part.as_str().is_empty() {
        extend_str(&mut v, "无供应商编号");
    } else {
        extend_str(&mut v, l.lcsc_part.as_str());
    }
    extend_str(&mut v, " · ");
    extend_str(&mut v, l.source_kind.as_str());
    string_from(v.as_slice())
}

fn library_part_matches(row: &BomRow, l: &InventoryLibraryPart) -> (r: bool)
    ensures
        r == library_matches(*row, *l),
{
    match &row.supplier_part_number {
        Some(s) => {
            let a = normalize_identifier(l.lcsc_part.as_str());
            let b = normalize_identifier(s.as_str());
            str_eq(a.as_str(), b.as_str())
        },
        None => {
            let a = component_name_key(l.value.as_str());
            let b = component_name_key(row.name.as_str());
            let c = package_key(l.package.as_str());
            let d = package_key(row.package.as_str());
            str_eq(a.as_str(), b.as_str()) && str_eq(c.as_str(), d.as_str())
        },
    }
}

/// The library parts that row `row` may stand for (see `library_candidates_for`).
pub fn find_library_candidates(row: &BomRow, parts: &[InventoryPart], library_parts: &[InventoryLibraryPart]) -> (r: Vec<
    InventoryLibraryCandidate,
>)
    ensures
        r@.map_values(|c: InventoryLibraryCandidate| lib_cand_view(c)) == library_candidates_for(
            *row,
            parts@,
            library_parts@,
        ),
{
    if row.supplier_part_number_conflict {
        let r: Vec<InventoryLibraryCandidate> = Vec::new();
        assert(r@.map_values(|c: InventoryLibraryCandidate| lib_cand_view(c)) =~= Seq::<LibCandView>::empty());
        return r;
    }
    let mut found: Vec<InventoryLibraryCandidate> = Vec::new();
    let mut k: usize = 0;
    while k < library_parts.len()
        invariant
            k <= library_parts@.len(),
            found@.map_values(|c: InventoryLibraryCandidate| lib_cand_view(c)) == unsorted_library_candidates(
                *row,
                parts@,
                library_parts@,
                k as int,
            ),
        decreases library_parts@.len() - k,
    {
        let l = &library_parts[k];
        if library_part_matches(row, l) {
            let ghost before = found@.map_values(|c: InventoryLibraryCandidate| lib_cand_view(c));
            let c = InventoryLibraryCandidate {
                library_key: own(&l.library_key),
                lcsc_part: own(&l.lcsc_part),
                label: library_label_of(l),
                has_model: l.has_model,
                already_in_inventory: any_stocks(parts, l),
                source_kind: own(&l.source_kind),
                source_file: own(&l.source_file),
                symbol_name: own(&l.symbol_name),
            };
            found.push(c);
            assert(found@.map_values(|c: InventoryLibraryCandidate| lib_cand_view(c)) =~= before.push(
                unsorted_library_candidates(*row, parts@, library_parts@, k + 1).last(),
            ));
        }
        k = k + 1;
    }
    let ghost u = found@.map_values(|c: InventoryLibraryCandidate| lib_cand_view(c));
    let mut sorted: Vec<InventoryLibraryCandidate> = Vec::new();
    let mut rest = found;
    let ghost orig = rest@;
    let ghost mut n: int = 0;
    while rest.len() > 0
        invariant
            0 <= n <= orig.len(),
            u == orig.map_values(|c: InventoryLibraryCandidate| lib_cand_view(c)),
            rest@ == orig.skip(n),
            sorted@.map_values(|c: InventoryLibraryCandidate| lib_cand_view(c)) == sort_library_candidates(u, n),
        decreases rest.len(),
    {
        let x = rest.remove(0);
        assert(x == orig[n]);
        let ghost t = sorted@.map_values(|c: InventoryLibraryCandidate| lib_cand_view(c));
        let mut p = sorted.len();
        while p > 0 && str_lt(x.label.as_str(), sorted[p - 1].label.as_str())
            invariant
                p <= sorted@.len(),
                t == sorted@.map_values(|c: InventoryLibraryCandidate| lib_cand_view(c)),
                lib_insert_pos(t, lib_cand_view(x), t.len() as int) == lib_insert_pos(t, lib_cand_view(x), p as int),
            decreases p,
        {
            p = p - 1;
        }
        sorted.insert(p, x);
        assert(sorted@.map_values(|c: InventoryLibraryCandidate| lib_cand_view(c)) =~= t.insert(
            p as int,
            lib_cand_view(x),
        ));
        proof {
            n = n + 1;
            assert(rest@ =~= orig.skip(n));
            assert(u[n - 1] == lib_cand_view(x));
        }
    }
    let ghost sv = sorted@.map_values(|c: InventoryLibraryCandidate| lib_cand_view(c));
    let mut out: Vec<InventoryLibraryCandidate> = Vec::new();
    let mut rest3 = sorted;
    let ghost orig3 = rest3@;
    let ghost mut m: int = 0;
    while rest3.len() > 0
        invariant
            0 <= m <= orig3.len(),
            sv == orig3.map_values(|c: InventoryLibraryCandidate| lib_cand_view(c)),
            rest3@ == orig3.skip(m),
            out@.map_values(|c: InventoryLibraryCandidate| lib_cand_view(c)) == dedup_by_key(sv, m),
        decreases rest3.len(),
    {
        let x = rest3.remove(0);
        assert(x == orig3[m]);
        let ghost before = out@.map_values(|c: InventoryLibraryCandidate| lib_cand_view(c));
        let repeat = out.len() > 0 && str_eq(out[out.len() - 1].library_key.as_str(), x.library_key.as_str());
        if !repeat {
            out.push(x);
            assert(out@.map_values(|c: InventoryLibraryCandidate| lib_cand_view(c)) =~= before.push(sv[m]));
        } else {
            assert(before.last() == lib_cand_view(out@[out@.len() - 1]));
        }
        proof {
            m = m + 1;
            assert(rest3@ =~= orig3.skip(m));
        }
    }
    out
}


/// The first part with id `id`, from position `k` on.
pub open spec fn part_index(parts: Seq<InventoryPart>, id: Seq<char>, k: int) -> Option<int>
    decreases parts.len() - k,
{
    if k < 0 || k >= parts.len() {
        None
    } else if parts[k].id@ == id {
        Some(k)
    } else {
        part_index(parts, id, k + 1)
    }
}

/// The first library part whose LCSC number has the key of `lcsc`, from position `k` on.
pub open spec fn library_index(libs: Seq<InventoryLibraryPart>, lcsc: Seq<char>, k: int) -> Option<int>
    decreases libs.len() - k,
{
    if k < 0 || k >= libs.len() {
        None
    } else if identifier_key(libs[k].lcsc_part@) == identifier_key(lcsc) {
        Some(k)
    } else {
        library_index(libs, lcsc, k + 1)
    }
}

/// `a * b`, or `u64::MAX` when that does not fit.
pub open spec fn saturating_product(a: u64, b: u64) -> u64 {
    if a * b > u64::MAX {
        u64::MAX
    } else {
        (a * b) as u64
    }
}

/// The part in stock that a row is matched to: its only candidate, when it has one.
pub open spec fn matched_part_index(row: BomRow, parts: Seq<InventoryPart>) -> Option<int> {
    let cands = candidates_for(row, parts);
    if cands.len() == 1 {
        part_index(parts, cands[0].0, 0)
    } else {
        None
    }
}

/// How a row was matched.
pub open spec fn match_kind_of(row: BomRow, cands: Seq<CandView>, libs: Seq<LibCandView>) -> Seq<char> {
    if row.supplier_part_number_conflict {
        "conflict"@
    } else if cands.len() > 1 || libs.len() > 1 {
        "ambiguous"@
    } else if cands.len() > 0 && row.supplier_part_number is Some {
        "inventory_supplier"@
    } else if libs.len() > 0 && row.supplier_part_number is Some {
        "library_supplier"@
    } else if cands.len() > 0 {
        "inventory_name_package"@
    } else if libs.len() > 0 {
        "library_name_package"@
    } else {
        "unmatched"@
    }
}

/// Whether a row's part has a symbol library entry.
pub open spec fn library_status_of(row: BomRow, cands: Seq<CandView>, libs: Seq<LibCandView>, matched: Option<InventoryPart>) -> Seq<char> {
    if row.supplier_part_number_conflict || cands.len() > 1 || libs.len() > 1 {
        "ambiguous"@
    } else {
        match matched {
            Some(p) => if p.library_lcsc is Some && !p.library_missing {
                "bound"@
            } else if p.library_lcsc is Some {
                "missing"@
            } else {
                "manual"@
            },
            None => if libs.len() > 0 {
                "available"@
            } else if row.supplier_part_number is Some {
                "missing"@
            } else {
                "manual"@
            },
        }
    }
}

/// Whether a 3D model is available for a row's part: from the library part of the matched
/// part's LCSC number when there is one, else from any library candidate.
pub open spec fn model_available_of(libs_all: Seq<InventoryLibraryPart>, libs: Seq<LibCandView>, matched: Option<InventoryPart>) -> bool {
    let from_part = match matched {
        Some(p) => match p.library_lcsc {
            Some(l) => match library_index(libs_all, l@, 0) {
                Some(i) => Some(libs_all[i].has_model),
                None => None,
            },
            None => None,
        },
        None => None,
    };
    match from_part {
        Some(b) => b,
        None => exists|i: int| 0 <= i < libs.len() && (#[trigger] libs[i]).3,
    }
}

fn find_part(parts: &[InventoryPart], id: &str) -> (r: Option<usize>)
    ensures
        match r {
            Some(i) => part_index(parts@, id@, 0) == Some(i as int) && i < parts@.len(),
            None => part_index(parts@, id@, 0) is None,
        },
{
    let mut k: usize = 0;
    while k < parts.len()
        invariant
            k <= parts@.len(),
            part_index(parts@, id@, 0) == part_index(parts@, id@, k as int),
        decreases parts@.len() - k,
    {
        if str_eq(parts[k].id.as_str(), id) {
            return Some(k);
        }
        k = k + 1;
    }
    None
}

fn find_library(libs: &[InventoryLibraryPart], lcsc: &str) -> (r: Option<usize>)
    ensures
        match r {
            Some(i) => library_index(libs@, lcsc@, 0) == Some(i as int) && i < libs@.len(),
            None => library_index(libs@, lcsc@, 0) is None,
        },
{
    let key = normalize_identifier(lcsc);
    let mut k: usize = 0;
    while k < libs.len()
        invariant
            k <= libs@.len(),
            key@ == identifier_key(lcsc@),
            library_index(libs@, lcsc@, 0) == library_index(libs@, lcsc@, k as int),
        decreases libs@.len() - k,
    {
        let other = normalize_identifier(libs[k].lcsc_part.as_str());
        if str_eq(other.as_str(), key.as_str()) {
            return Some(k);
        }
        k = k + 1;
    }
    None
}

fn owned_str(s: &str) -> (r: String)
    ensures
        r@ == s@,
{
    s.to_owned()
}

/// One bill-of-materials row previewed against the stock and the libraries, for `boards`
/// boards.
pub fn preview_row(row: BomRow, boards: u64, parts: &[InventoryPart], library_parts: &[InventoryLibraryPart]) -> (r: BomPreviewRow)
    ensures
        ({
            let cands = candidates_for(row, parts@);
            let libs = library_candidates_for(row, parts@, library_parts@);
            let mi = matched_part_index(row, parts@);
            let matched = match mi {
                Some(i) => Some(parts@[i]),
                None => None,
            };
            let required = saturating_product(row.quantity, boards);
            &&& r.row_number == row.row_number
            &&& r.identifier == row.identifier
            &&& r.references == row.references
            &&& r.supplier_part_number == row.supplier_part_number
            &&& r.supplier_part_number_source == row.supplier_part_number_source
            &&& r.supplier_part_number_conflict == row.supplier_part_number_conflict
            &&& r.name == row.name
            &&& r.package == row.package
            &&& r.quantity_per_board == row.quantity
            &&& r.required_quantity == required
            &&& r.candidates@.map_values(|c: InventoryCandidate| cand_view(c)) == cands
            &&& r.library_candidates@.map_values(|c: InventoryLibraryCandidate| lib_cand_view(c)) == libs
            &&& opt_string_view(r.matched_part_id) == if cands.len() == 1 {
                Some(cands[0].0)
            } else {
                None
            }
            &&& r.match_kind@ == match_kind_of(row, cands, libs)
            &&& r.library_status@ == library_status_of(row, cands, libs, matched)
            &&& r.model_status@ == if model_available_of(library_parts@, libs, matched) {
                "available"@
            } else {
                "missing"@
            }
            &&& r.allocations@.map_values(|a: InventoryAllocation| allocation_view(a)) == match matched {
                Some(p) => allocation_plan(p.locations@.map_values(|l: InventoryLocation| loc_view(l)), required),
                None => Seq::empty(),
            }
        }),
{
    let candidates = find_candidates(&row, parts);
    let library_candidates = find_library_candidates(&row, parts, library_parts);
    let ghost cands = candidates@.map_values(|c: InventoryCandidate| cand_view(c));
    let ghost libs = library_candidates@.map_values(|c: InventoryLibraryCandidate| lib_cand_view(c));
    let matched_part_id: Option<String> = if candidates.len() == 1 {
        Some(candidates[0].id.clone())
    } else {
        None
    };
    let required: u64 = match row.quantity.checked_mul(boards) {
        Some(v) => v,
        None => u64::MAX,
    };
    let matched_index: Option<usize> = match &matched_part_id {
        Some(id) => find_part(parts, id.as_str()),
        None => None,
    };
    let allocations = match matched_index {
        Some(i) => allocate(&parts[i], required),
        None => Vec::new(),
    };
    if allocations.len() == 0 && matched_index.is_none() {
        assert(allocations@.map_values(|a: InventoryAllocation| allocation_view(a)) =~= Seq::<(Seq<char>, int)>::empty());
    }
    let conflict = row.supplier_part_number_conflict;
    let has_supplier = row.supplier_part_number.is_some();
    let match_kind = if conflict {
        "conflict"
    } else if candidates.len() > 1 || library_candidates.len() > 1 {
        "ambiguous"
    } else if candidates.len() > 0 && has_supplier {
        "inventory_supplier"
    } else if library_candidates.len() > 0 && has_supplier {
        "library_supplier"
    } else if candidates.len() > 0 {
        "inventory_name_package"
    } else if library_candidates.len() > 0 {
        "library_name_package"
    } else {
        "unmatched"
    };
    let library_status = if conflict || candidates.len() > 1 || library_candidates.len() > 1 {
        "ambiguous"
    } else {
        match matched_index {
            Some(i) => {
                let p = &parts[i];
                if p.library_lcsc.is_some() && !p.library_missing {
                    "bound"
                } else if p.library_lcsc.is_some() {
                    "missing"
                } else {
                    "manual"
                }
            },
            None => if library_candidates.len() > 0 {
                "available"
            } else if has_supplier {
                "missing"
            } else {
                "manual"
            },
        }
    };
    let from_part: Option<bool> = match matched_index {
        Some(i) => match &parts[i].library_lcsc {
            Some(l) => match find_library(library_parts, l.as_str()) {
                Some(j) => Some(library_parts[j].has_model),
                None => None,
            },
            None => None,
        },
        None => None,
    };
    let model_available = match from_part {
        Some(b) => b,
        None => {
            let mut any = false;
            let mut k: usize = 0;
            while k < library_candidates.len()
                invariant
                    k <= library_candidates@.len(),
                    libs == library_candidates@.map_values(|c: InventoryLibraryCandidate| lib_cand_view(c)),
                    any <==> exists|i: int| 0 <= i < k && (#[trigger] libs[i]).3,
                decreases library_candidates@.len() - k,
            {
                assert(libs[k as int].3 == library_candidates@[k as int].has_model);
                if library_candidates[k].has_model {
                    any = true;
                }
                k = k + 1;
            }
            any
        },
    };
    let model_status = if model_available {
        "available"
    } else {
        "missing"
    };
    BomPreviewRow {
        row_number: row.row_number,
        identifier: row.identifier,
        references: row.references,
        supplier_part_number: row.supplier_part_number,
        supplier_part_number_source: row.supplier_part_number_source,
        supplier_part_number_conflict: row.supplier_part_number_conflict,
        name: row.name,
        package: row.package,
        quantity_per_board: row.quantity,
        required_quantity: required,
        matched_part_id,
        candidates,
        library_candidates,
        match_kind: owned_str(match_kind),
        library_status: owned_str(library_status),
        model_status: owned_str(model_status),
        allocations,
    }
}

} // verus!
