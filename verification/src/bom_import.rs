//! The decisions of importing a bill of materials into the stock and of taking its parts
//! from the stock: which rows a request covers, what part a row becomes, and whether a
//! row's allocations add up.
use vstd::prelude::*;
use crate::bom::{BomRowView, row_view, opt_view};
use crate::inventory::{
    BomDeductionRow, BomImportRow, BomRow, InventoryAllocation, InventoryLibraryPart,
    normalize_optional, eq_ignore_ascii_case,
};
use crate::text::{extend_str, lower_seq, string_from, trim, trim_str, str_eq};
use crate::inventory::unicode_uppercase;

verus! {

pub open spec fn first_repeat(v: Seq<usize>, i: int) -> bool {
    0 <= i < v.len() && v.take(i).contains(v[i])
}

/// Why the rows of a request do not match the rows of the file: the first row number
/// given twice, or `incomplete` when the two sets of row numbers differ.
pub open spec fn coverage_error(source: Seq<usize>, request: Seq<usize>, incomplete: Seq<char>) -> Option<
    Seq<char>,
> {
    if exists|i: int| #[trigger] first_repeat(request, i) {
        let i = choose|i: int| first_repeat(request, i) && forall|j: int| 0 <= j < i ==> !first_repeat(request, j);
        Some("Duplicate BOM row "@ + crate::text::decimal(request[i] as nat))
    } else if source.to_set() != request.to_set() {
        Some(incomplete)
    } else {
        None
    }
}

fn contains_usize(v: &[usize], x: usize, n: usize) -> (r: bool)
    requires
        n <= v.len(),
    ensures
        r == v@.take(n as int).contains(x),
        n == v.len() ==> r == v@.contains(x),
{
    assert(v@.take(v@.len() as int) =~= v@);
    let mut k: usize = 0;
    while k < n
        invariant
            k <= n <= v.len(),
            forall|j: int| 0 <= j < k ==> v@[j] != x,
        decreases n - k,
    {
        if v[k] == x {
            assert(v@.take(n as int)[k as int] == x);
            return true;
        }
        k = k + 1;
    }
    proof {
        if v@.take(n as int).contains(x) {
            let j = choose|j: int| 0 <= j < n && v@.take(n as int)[j] == x;
            assert(v@[j] == x);
        }
    }
    false
}

proof fn lemma_sets_differ(a: Seq<usize>, b: Seq<usize>, x: usize)
    requires
        a.contains(x),
        !b.contains(x),
    ensures
        a.to_set() != b.to_set(),
{
    assert(a.to_set().contains(x));
    assert(!b.to_set().contains(x));
}

/// Checks that a request names each row of the file once (see `coverage_error`).
pub fn check_row_coverage(source: &[usize], request: &[usize], incomplete: &str) -> (r: Result<(), String>)
    ensures
        match coverage_error(source@, request@, incomplete@) {
            Some(e) => r is Err && r->Err_0@ == e,
            None => r is Ok,
        },
{
    let mut i: usize = 0;
    while i < request.len()
        invariant
            i <= request.len(),
            forall|j: int| 0 <= j < i ==> !#[trigger] first_repeat(request@, j),
        decreases request.len() - i,
    {
        if contains_usize(request, request[i], i) {
            assert(first_repeat(request@, i as int));
            let ghost c = choose|c: int|
                first_repeat(request@, c) && forall|j: int| 0 <= j < c ==> !first_repeat(request@, j);
            proof {
                if c < i {
                    assert(!first_repeat(request@, c));
                }
                if c > i {
                    assert(!first_repeat(request@, i as int));
                }
            }
            let mut v: Vec<char> = Vec::new();
            extend_str(&mut v, "Duplicate BOM row ");
            let n = crate::text::decimal_string(request[i] as u64);
            extend_str(&mut v, n.as_str());
            return Err(string_from(v.as_slice()));
        }
        i = i + 1;
    }
    assert(!exists|i: int| #[trigger] first_repeat(request@, i));
    let mut k: usize = 0;
    while k < source.len()
        invariant
            k <= source.len(),
            !exists|i: int| #[trigger] first_repeat(request@, i),
            forall|j: int| 0 <= j < k ==> request@.contains(#[trigger] source@[j]),
        decreases source.len() - k,
    {
        if !contains_usize(request, source[k], request.len()) {
            proof {
                lemma_sets_differ(source@, request@, source@[k as int]);
            }
            return Err(string_from(crate::text::chars_of(incomplete).as_slice()));
        }
        k = k + 1;
    }
    let mut m: usize = 0;
    while m < request.len()
        invariant
            m <= request.len(),
            !exists|i: int| #[trigger] first_repeat(request@, i),
            forall|j: int| 0 <= j < source@.len() ==> request@.contains(#[trigger] source@[j]),
            forall|j: int| 0 <= j < m ==> source@.contains(#[trigger] request@[j]),
        decreases request.len() - m,
    {
        if !contains_usize(source, request[m], source.len()) {
            proof {
                lemma_sets_differ(request@, source@, request@[m as int]);
            }
            return Err(string_from(crate::text::chars_of(incomplete).as_slice()));
        }
        m = m + 1;
    }
    assert(source@.to_set() =~= request@.to_set()) by {
        assert forall|x: usize| source@.to_set().contains(x) implies request@.to_set().contains(x) by {
            let j = choose|j: int| 0 <= j < source@.len() && source@[j] == x;
            assert(request@.contains(source@[j]));
        }
        assert forall|x: usize| request@.to_set().contains(x) implies source@.to_set().contains(x) by {
            let j = choose|j: int| 0 <= j < request@.len() && request@[j] == x;
            assert(source@.contains(request@[j]));
        }
    }
    Ok(())
}

/// The part that an imported row becomes, by value.
pub struct DraftView {
    pub library_lcsc: Option<Seq<char>>,
    pub library_missing: bool,
    pub supplier_part_number: Option<Seq<char>>,
    pub name: Seq<char>,
    pub package: Seq<char>,
    pub symbol_name: Option<Seq<char>>,
    pub source_file: Option<Seq<char>>,
}

/// The part that an imported row becomes.
#[derive(Debug, Clone, PartialEq, Eq)]
pub struct ImportDraft {
    pub library_lcsc: Option<String>,
    pub library_missing: bool,
    pub supplier_part_number: Option<String>,
    pub name: String,
    pub package: String,
    pub symbol_name: Option<String>,
    pub source_file: Option<String>,
}

pub open spec fn draft_view(d: ImportDraft) -> DraftView {
    DraftView {
        library_lcsc: opt_view(d.library_lcsc),
        library_missing: d.library_missing,
        supplier_part_number: opt_view(d.supplier_part_number),
        name: d.name@,
        package: d.package@,
        symbol_name: opt_view(d.symbol_name),
        source_file: opt_view(d.source_file),
    }
}

/// A part number trimmed and upper-cased, `None` when blank (`normalize_optional`).
pub open spec fn normalized_number(v: Option<Seq<char>>) -> Option<Seq<char>> {
    match v {
        Some(s) => if unicode_uppercase(trim(s)).len() == 0 {
            None
        } else {
            Some(unicode_uppercase(trim(s)))
        },
        None => None,
    }
}

/// The part number a row is imported under: the one chosen in the request, else the one
/// the file names.
pub open spec fn selected_lcsc(sel: BomImportRow, source: BomRowView) -> Option<Seq<char>> {
    match normalized_number(opt_view(sel.library_lcsc)) {
        Some(l) => Some(l),
        None => source.supplier_part_number,
    }
}

/// The first library part with key `key`.
pub open spec fn part_with_key(parts: Seq<InventoryLibraryPart>, key: Seq<char>, i: int) -> Option<int>
    decreases parts.len() - i,
{
    if i < 0 || i >= parts.len() {
        None
    } else if parts[i].library_key@ == key {
        Some(i)
    } else {
        part_with_key(parts, key, i + 1)
    }
}

proof fn lemma_part_with_key(parts: Seq<InventoryLibraryPart>, key: Seq<char>, i: int)
    ensures
        part_with_key(parts, key, i) matches Some(j) ==> i <= j < parts.len() && parts[j].library_key@
            == key,
    decreases parts.len() - i,
{
    if 0 <= i < parts.len() && parts[i].library_key@ != key {
        lemma_part_with_key(parts, key, i + 1);
    }
}

/// A library part that carries part number `lcsc` (ignoring ASCII case).
pub open spec fn carries(p: InventoryLibraryPart, lcsc: Seq<char>) -> bool {
    p.lcsc_part@.len() > 0 && lower_seq(p.lcsc_part@) == lower_seq(lcsc)
}

/// The library part a row is bound to: the one with the chosen key, else the only part
/// that carries the row's part number (none when several do).
pub open spec fn bound_part(sel: BomImportRow, source: BomRowView, parts: Seq<InventoryLibraryPart>) -> Option<int> {
    let by_key = match sel.library_key {
        Some(k) => part_with_key(parts, k@, 0),
        None => None,
    };
    if by_key is Some {
        by_key
    } else {
        match selected_lcsc(sel, source) {
            Some(l) => if exists|i: int| 0 <= i < parts.len() && #[trigger] carries(parts[i], l) {
                let i = choose|i: int| 0 <= i < parts.len() && #[trigger] carries(parts[i], l);
                if forall|j: int| 0 <= j < parts.len() && j != i ==> !#[trigger] carries(parts[j], l) {
                    Some(i)
                } else {
                    None
                }
            } else {
                None
            },
            None => None,
        }
    }
}

/// The part a row becomes: the bound library part's number, value, package (the file's
/// when the library has none), symbol and file; or, with no library part, the row's own
/// name and package under the selected number, marked as waiting for a library part when
/// there is one.
pub open spec fn import_draft(sel: BomImportRow, source: BomRowView, parts: Seq<InventoryLibraryPart>) -> DraftView {
    match bound_part(sel, source, parts) {
        Some(i) => {
            let lib = parts[i];
            let lcsc = normalized_number(Some(lib.lcsc_part@));
            DraftView {
                library_lcsc: lcsc,
                library_missing: false,
                supplier_part_number: lcsc,
                name: lib.value@,
                package: if trim(lib.package@).len() == 0 {
                    source.package
                } else {
                    lib.package@
                },
                symbol_name: Some(lib.symbol_name@),
                source_file: Some(lib.source_file@),
            }
        },
        None => {
            let lcsc = selected_lcsc(sel, source);
            DraftView {
                library_lcsc: lcsc,
                library_missing: lcsc is Some,
                supplier_part_number: lcsc,
                name: source.name,
                package: source.package,
                symbol_name: None,
                source_file: None,
            }
        },
    }
}

fn copy_opt(o: &Option<String>) -> (r: Option<String>)
    ensures
        opt_view(r) == opt_view(*o),
{
    match o {
        Some(s) => Some(s.clone()),
        None => None,
    }
}

fn find_by_key(parts: &[InventoryLibraryPart], key: &str) -> (r: Option<usize>)
    ensures
        match r {
            Some(i) => part_with_key(parts@, key@, 0) == Some(i as int),
            None => part_with_key(parts@, key@, 0) is None,
        },
{
    let mut i: usize = 0;
    while i < parts.len()
        invariant
            i <= parts.len(),
            part_with_key(parts@, key@, 0) == part_with_key(parts@, key@, i as int),
        decreases parts.len() - i,
    {
        if str_eq(parts[i].library_key.as_str(), key) {
            return Some(i);
        }
        i = i + 1;
    }
    None
}

fn carries_exec(p: &InventoryLibraryPart, lcsc: &str) -> (r: bool)
    ensures
        r == carries(*p, lcsc@),
{
    !p.lcsc_part.as_str().is_empty() && eq_ignore_ascii_case(p.lcsc_part.as_str(), lcsc)
}

fn only_carrier(parts: &[InventoryLibraryPart], lcsc: &str) -> (r: Option<usize>)
    ensures
        match r {
            Some(i) => i < parts.len() && carries(parts@[i as int], lcsc@) && forall|j: int|
                0 <= j < parts.len() && j != i ==> !#[trigger] carries(parts@[j], lcsc@),
            None => !(exists|i: int| 0 <= i < parts.len() && #[trigger] carries(parts@[i], lcsc@))
                || exists|i: int, j: int|
                0 <= i < j < parts.len() && #[trigger] carries(parts@[i], lcsc@) && #[trigger] carries(
                    parts@[j],
                    lcsc@,
                ),
        },
{
    let mut found: Option<usize> = None;
    let mut i: usize = 0;
    while i < parts.len()
        invariant
            i <= parts.len(),
            match found {
                Some(f) => f < i && carries(parts@[f as int], lcsc@) && forall|j: int|
                    0 <= j < i && j != f ==> !#[trigger] carries(parts@[j], lcsc@),
                None => forall|j: int| 0 <= j < i ==> !#[trigger] carries(parts@[j], lcsc@),
            },
        decreases parts.len() - i,
    {
        if carries_exec(&parts[i], lcsc) {
            match found {
                Some(f) => {
                    assert(carries(parts@[f as int], lcsc@) && carries(parts@[i as int], lcsc@));
                    return None;
                },
                None => {
                    found = Some(i);
                },
            }
        }
        i = i + 1;
    }
    found
}

proof fn lemma_bound(
    sel: BomImportRow,
    source: BomRowView,
    parts: Seq<InventoryLibraryPart>,
    by_key: Option<int>,
    bound: Option<int>,
)
    requires
        by_key == match sel.library_key {
            Some(k) => part_with_key(parts, k@, 0),
            None => None,
        },
        by_key is Some ==> bound == by_key,
        by_key is None && selected_lcsc(sel, source) is None ==> bound is None,
        by_key is None && selected_lcsc(sel, source) is Some ==> {
            let l = selected_lcsc(sel, source)->Some_0;
            match bound {
                Some(i) => 0 <= i < parts.len() && carries(parts[i], l) && forall|j: int|
                    0 <= j < parts.len() && j != i ==> !#[trigger] carries(parts[j], l),
                None => !(exists|i: int| 0 <= i < parts.len() && #[trigger] carries(parts[i], l))
                    || exists|i: int, j: int|
                    0 <= i < j < parts.len() && #[trigger] carries(parts[i], l) && #[trigger] carries(
                        parts[j],
                        l,
                    ),
            }
        },
    ensures
        bound == bound_part(sel, source, parts),
{
    if by_key is None && selected_lcsc(sel, source) is Some {
        let l = selected_lcsc(sel, source)->Some_0;
        if exists|i: int| 0 <= i < parts.len() && #[trigger] carries(parts[i], l) {
            let c = choose|i: int| 0 <= i < parts.len() && #[trigger] carries(parts[i], l);
            match bound {
                Some(i) => {
                    if c != i {
                        assert(!carries(parts[c], l));
                    }
                },
                None => {
                    let (x, y) = choose|x: int, y: int|
                        0 <= x < y < parts.len() && #[trigger] carries(parts[x], l) && #[trigger] carries(
                            parts[y],
                            l,
                        );
                    let other = if c == x {
                        y
                    } else {
                        x
                    };
                    assert(0 <= other < parts.len() && other != c && carries(parts[other], l));
                    assert(!(forall|j: int|
                        0 <= j < parts.len() && j != c ==> !#[trigger] carries(parts[j], l)));
                },
            }
        }
    }
}

/// The part an imported row becomes (see `import_draft`).
pub fn plan_import_row(selected: &BomImportRow, source: &BomRow, library_parts: &[InventoryLibraryPart]) -> (r:
    ImportDraft)
    ensures
        draft_view(r) == import_draft(*selected, row_view(*source), library_parts@),
{
    let chosen = normalize_optional(copy_opt(&selected.library_lcsc));
    let lcsc: Option<String> = match chosen {
        Some(l) => Some(l),
        None => copy_opt(&source.supplier_part_number),
    };
    assert(opt_view(lcsc) == selected_lcsc(*selected, row_view(*source)));
    let by_key: Option<usize> = match &selected.library_key {
        Some(k) => find_by_key(library_parts, k.as_str()),
        None => None,
    };
    let bound: Option<usize> = match by_key {
        Some(i) => Some(i),
        None => match &lcsc {
            Some(l) => only_carrier(library_parts, l.as_str()),
            None => None,
        },
    };
    proof {
        if selected.library_key is Some {
            lemma_part_with_key(library_parts@, selected.library_key->Some_0@, 0);
        }
        lemma_bound(*selected, row_view(*source), library_parts@, opt_int(by_key), opt_int(bound));
    }
    match bound {
        Some(i) => {
            let lib = &library_parts[i];
            let lib_lcsc = normalize_optional(Some(lib.lcsc_part.clone()));
            let package = if trim_str(lib.package.as_str()).as_str().is_empty() {
                source.package.clone()
            } else {
                lib.package.clone()
            };
            ImportDraft {
                library_lcsc: copy_opt(&lib_lcsc),
                library_missing: false,
                supplier_part_number: lib_lcsc,
                name: lib.value.clone(),
                package,
                symbol_name: Some(lib.symbol_name.clone()),
                source_file: Some(lib.source_file.clone()),
            }
        },
        None => ImportDraft {
            library_lcsc: copy_opt(&lcsc),
            library_missing: lcsc.is_some(),
            supplier_part_number: copy_opt(&lcsc),
            name: source.name.clone(),
            package: source.package.clone(),
            symbol_name: None,
            source_file: None,
        },
    }
}

pub open spec fn opt_int(o: Option<usize>) -> Option<int> {
    match o {
        Some(v) => Some(v as int),
        None => None,
    }
}

/// How a new part is noted, by what it was imported as.
pub open spec fn draft_note(d: DraftView) -> Seq<char> {
    if d.library_missing {
        "BOM 导入，待绑定库元件"@
    } else if d.library_lcsc is None {
        "BOM 导入，手动元件"@
    } else {
        "BOM 导入"@
    }
}

/// The note of a new part (see `draft_note`).
pub fn import_note(d: &ImportDraft) -> (r: &'static str)
    ensures
        r@ == draft_note(draft_view(*d)),
{
    if d.library_missing {
        "BOM 导入，待绑定库元件"
    } else if d.library_lcsc.is_none() {
        "BOM 导入，手动元件"
    } else {
        "BOM 导入"
    }
}

/// The stock a row needs for `boards` boards: its quantity times the boards, at most
/// `u64::MAX`.
pub open spec fn required_for(quantity: u64, boards: u64) -> int {
    if quantity * boards > u64::MAX {
        u64::MAX as int
    } else {
        quantity * boards
    }
}

/// The stock a row needs (see `required_for`).
pub fn required_quantity(quantity: u64, boards: u64) -> (r: u64)
    ensures
        r == required_for(quantity, boards),
{
    match quantity.checked_mul(boards) {
        Some(v) => v,
        None => u64::MAX,
    }
}

pub open spec fn alloc_sum(a: Seq<InventoryAllocation>) -> int
    decreases a.len(),
{
    if a.len() == 0 {
        0
    } else {
        alloc_sum(a.drop_last()) + a.last().quantity
    }
}

/// The allocations of a row are valid for part `part_id`: some, each positive and of that
/// part, adding up to the required stock (written as a signed number, as it is stored).
pub open spec fn allocations_valid(a: Seq<InventoryAllocation>, part_id: Seq<char>, required: u64) -> bool {
    &&& a.len() > 0
    &&& alloc_sum(a) == (required as i64) as int
    &&& forall|i: int| 0 <= i < a.len() ==> (#[trigger] a[i]).quantity > 0 && a[i].part_id@ == part_id
}

/// Why the allocations of a row to take from stock are refused: no part chosen, or
/// allocations that are not valid for it.
pub open spec fn deduction_error(row: BomDeductionRow, required: u64) -> Option<Seq<char>> {
    match row.part_id {
        None => Some("BOM row "@ + crate::text::decimal(row.row_number as nat) + " has no selected inventory part"@),
        Some(p) => if allocations_valid(row.allocations@, p@, required) {
            None
        } else {
            Some("Invalid allocation for BOM row "@ + crate::text::decimal(row.row_number as nat))
        },
    }
}

fn row_text(prefix: &str, n: usize, suffix: &str) -> (r: String)
    ensures
        r@ == prefix@ + crate::text::decimal(n as nat) + suffix@,
{
    let mut v: Vec<char> = Vec::new();
    extend_str(&mut v, prefix);
    let d = crate::text::decimal_string(n as u64);
    extend_str(&mut v, d.as_str());
    extend_str(&mut v, suffix);
    string_from(v.as_slice())
}

/// Checks the allocations of a row that takes stock (see `deduction_error`).
pub fn check_deduction_row(row: &BomDeductionRow, required: u64) -> (r: Result<(), String>)
    ensures
        match deduction_error(*row, required) {
            Some(e) => r is Err && r->Err_0@ == e,
            None => r is Ok,
        },
{
    let part_id = match &row.part_id {
        Some(p) => p,
        None => return Err(row_text("BOM row ", row.row_number, " has no selected inventory part")),
    };
    let ghost a = row.allocations@;
    let mut total: i128 = 0;
    let mut all_ok = true;
    let mut k: usize = 0;
    while k < row.allocations.len()
        invariant
            k <= a.len(),
            a == row.allocations@,
            a.len() < isize::MAX || k <= a.len(),
            total == alloc_sum(a.take(k as int)),
            -(k as int) * 0x8000_0000_0000_0000 <= total <= (k as int) * 0x7fff_ffff_ffff_ffff,
            k <= 0x1_0000_0000_0000_0000,
            all_ok == forall|i: int| 0 <= i < k ==> (#[trigger] a[i]).quantity > 0 && a[i].part_id@ == part_id@,
        decreases a.len() - k,
    {
        let q = row.allocations[k].quantity;
        assert(a.take(k + 1).drop_last() =~= a.take(k as int));
        proof {
            assert(k < 0x1_0000_0000_0000_0000) by {
                assert(a.len() <= usize::MAX);
            }
            assert(-(k as int + 1) * 0x8000_0000_0000_0000 <= total + q <= (k as int + 1) * 0x7fff_ffff_ffff_ffff) by (nonlinear_arith)
                requires
                    -(k as int) * 0x8000_0000_0000_0000 <= total <= (k as int) * 0x7fff_ffff_ffff_ffff,
                    -0x8000_0000_0000_0000 <= q <= 0x7fff_ffff_ffff_ffff,
            ;
            assert((k as int + 1) * 0x7fff_ffff_ffff_ffff < 0x7fff_ffff_ffff_ffff_ffff_ffff_ffff_ffff) by (nonlinear_arith)
                requires
                    k < 0x1_0000_0000_0000_0000,
            ;
            assert(-(k as int + 1) * 0x8000_0000_0000_0000 >= -0x8000_0000_0000_0000_0000_0000_0000_0000) by (nonlinear_arith)
                requires
                    k < 0x1_0000_0000_0000_0000,
            ;
        }
        total = total + q as i128;
        let ok = q > 0 && str_eq(row.allocations[k].part_id.as_str(), part_id.as_str());
        all_ok = all_ok && ok;
        k = k + 1;
    }
    assert(a.take(a.len() as int) =~= a);
    let want: i64 = required as i64;
    assert(total == alloc_sum(a));
    assert(all_ok == forall|i: int| 0 <= i < a.len() ==> (#[trigger] a[i]).quantity > 0 && a[i].part_id@ == part_id@);
    if total != want as i128 || row.allocations.len() == 0 || !all_ok {
        assert(!allocations_valid(a, part_id@, required));
        let mut v: Vec<char> = Vec::new();
        extend_str(&mut v, "Invalid allocation for BOM row ");
        let d = crate::text::decimal_string(row.row_number as u64);
        extend_str(&mut v, d.as_str());
        return Err(string_from(v.as_slice()));
    }
    Ok(())
}

pub open spec fn first_location_repeat(a: Seq<InventoryAllocation>, i: int) -> bool {
    0 <= i < a.len() && exists|j: int| 0 <= j < i && #[trigger] a[j].location@ == a[i].location@
}

/// Whether allocation `i` of a row names a location an earlier allocation named (a row
/// takes from each location once).
pub fn repeats_location(allocations: &[InventoryAllocation], i: usize) -> (r: bool)
    requires
        i < allocations.len(),
    ensures
        r == first_location_repeat(allocations@, i as int),
{
    let mut j: usize = 0;
    while j < i
        invariant
            j <= i < allocations.len(),
            forall|k: int| 0 <= k < j ==> allocations@[k].location@ != allocations@[i as int].location@,
        decreases i - j,
    {
        if str_eq(allocations[j].location.as_str(), allocations[i].location.as_str()) {
            return true;
        }
        j = j + 1;
    }
    false
}

} // verus!
