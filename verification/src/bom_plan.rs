//! Whole bill-of-materials operations on the stock, decided before anything is written:
//! which parts an import adds and how it counts its rows, which stock a deduction takes,
//! and which stored parts a library sync brings up to date.
use vstd::prelude::*;
use crate::bom::{opt_view, row_view};
use crate::bom_import::{
    DraftView, ImportDraft, check_deduction_row, check_row_coverage, coverage_error,
    deduction_error, draft_view, first_location_repeat, import_draft, plan_import_row,
    repeats_location, required_for, required_quantity,
};
use crate::inventory::{
    BomDeductionRow, BomImportRow, BomRow, ConfirmBomDeductionRequest, ImportBomRequest,
    ImportBomResult, InventoryAllocation, InventoryLibraryPart, InventoryLocation, InventoryPart,
    InventoryStockAdjustment, component_name_key, name_key, package_key, package_key_of,
};
use crate::inventory::{normalize_optional, required_text};
use crate::inventory_sync::{
    StoredLink, library_identity, library_item_identity, next_package, number_key, sync_update,
};
use crate::pattern::opt_string_view;
use crate::text::{trim, chars_of, decimal, extend_str, str_eq, string_from, to_upper, upper};

verus! {

/// The row numbers of the rows of a file.
pub open spec fn row_numbers(rows: Seq<BomRow>) -> Seq<usize> {
    rows.map_values(|r: BomRow| r.row_number)
}

/// The row numbers that an import request names.
pub open spec fn import_numbers(rows: Seq<BomImportRow>) -> Seq<usize> {
    rows.map_values(|r: BomImportRow| r.row_number)
}

/// The row of the file that row number `n` stands for: the last one with that number.
pub open spec fn row_at(rows: Seq<BomRow>, n: usize) -> Option<int>
    decreases rows.len(),
{
    if rows.len() == 0 {
        None
    } else if rows.last().row_number == n {
        Some(rows.len() - 1)
    } else {
        row_at(rows.drop_last(), n)
    }
}

proof fn lemma_row_at(rows: Seq<BomRow>, n: usize)
    ensures
        row_at(rows, n) matches Some(j) ==> 0 <= j < rows.len() && rows[j].row_number == n,
        row_numbers(rows).contains(n) ==> row_at(rows, n) is Some,
    decreases rows.len(),
{
    if rows.len() > 0 {
        lemma_row_at(rows.drop_last(), n);
        if row_numbers(rows).contains(n) && rows.last().row_number != n {
            let j = choose|j: int| 0 <= j < rows.len() && row_numbers(rows)[j] == n;
            assert(j < rows.len() - 1);
            assert(row_numbers(rows.drop_last())[j] == n);
        }
    }
}

fn find_row(rows: &[BomRow], n: usize) -> (r: Option<usize>)
    ensures
        opt_index(r) == row_at(rows@, n),
{
    let mut k: usize = rows.len();
    assert(rows@.take(rows@.len() as int) =~= rows@);
    while k > 0
        invariant
            k <= rows.len(),
            row_at(rows@, n) == row_at(rows@.take(k as int), n),
        decreases k,
    {
        assert(rows@.take(k as int).drop_last() =~= rows@.take(k - 1));
        if rows[k - 1].row_number == n {
            return Some(k - 1);
        }
        k = k - 1;
    }
    None
}

pub open spec fn opt_index(o: Option<usize>) -> Option<int> {
    match o {
        Some(v) => Some(v as int),
        None => None,
    }
}

/// `s` as the stock's queries compare part numbers: spaces dropped, ASCII letters upper
/// case.
pub open spec fn spaceless_upper(s: Seq<char>) -> Seq<char>
    decreases s.len(),
{
    if s.len() == 0 {
        Seq::empty()
    } else if s.last() == ' ' {
        spaceless_upper(s.drop_last())
    } else {
        spaceless_upper(s.drop_last()).push(upper(s.last()))
    }
}

/// A stored part number as the queries compare it; an absent one compares as empty.
pub open spec fn stored_key(v: Option<Seq<char>>) -> Seq<char> {
    match v {
        Some(s) => spaceless_upper(s),
        None => Seq::empty(),
    }
}

fn stored_key_of(v: &Option<String>) -> (r: String)
    ensures
        r@ == stored_key(opt_view(*v)),
{
    match v {
        None => String::new(),
        Some(s) => {
            let cs = chars_of(s.as_str());
            let mut out: Vec<char> = Vec::new();
            let mut i: usize = 0;
            while i < cs.len()
                invariant
                    i <= cs.len(),
                    cs@ == s@,
                    out@ == spaceless_upper(cs@.take(i as int)),
                decreases cs.len() - i,
            {
                assert(cs@.take(i + 1).drop_last() =~= cs@.take(i as int));
                if cs[i] != ' ' {
                    out.push(to_upper(cs[i]));
                }
                i = i + 1;
            }
            assert(cs@.take(cs.len() as int) =~= cs@);
            string_from(out.as_slice())
        },
    }
}

/// A part the stock holds, as far as an import looks for it.
pub struct KnownPart {
    pub library_lcsc: Option<Seq<char>>,
    pub supplier: Option<Seq<char>>,
    pub source_file: Option<Seq<char>>,
    pub symbol_name: Option<Seq<char>>,
    pub name: Seq<char>,
    pub package: Seq<char>,
}

pub open spec fn stock_known(p: InventoryPart) -> KnownPart {
    KnownPart {
        library_lcsc: opt_view(p.library_lcsc),
        supplier: opt_view(p.supplier_part_number),
        source_file: opt_view(p.library_source_file),
        symbol_name: opt_view(p.library_symbol_name),
        name: p.name@,
        package: p.package@,
    }
}

pub open spec fn draft_known(d: DraftView) -> KnownPart {
    KnownPart {
        library_lcsc: d.library_lcsc,
        supplier: d.supplier_part_number,
        source_file: d.source_file,
        symbol_name: d.symbol_name,
        name: d.name,
        package: d.package,
    }
}

/// Whether stored part `k` is the part a draft stands for: with a library part number,
/// one stored under that number (as library or supplier number); else, with a library
/// file and symbol, one bound to them; else one with the same name and package keys.
pub open spec fn stocked_as(k: KnownPart, d: DraftView) -> bool {
    match d.library_lcsc {
        Some(l) => stored_key(k.library_lcsc) == l || stored_key(k.supplier) == l,
        None => match (d.source_file, d.symbol_name) {
            (Some(f), Some(s)) => k.source_file == Some(f) && k.symbol_name == Some(s),
            _ => name_key(k.name) == name_key(d.name) && package_key_of(k.package) == package_key_of(
                d.package,
            ),
        },
    }
}

pub open spec fn already_stocked(known: Seq<KnownPart>, d: DraftView) -> bool {
    exists|i: int| 0 <= i < known.len() && #[trigger] stocked_as(known[i], d)
}

/// How far an import has come: the parts to add, the parts known so far (the stock's and
/// those to add), and its counts.
pub struct ImportRun {
    pub drafts: Seq<DraftView>,
    pub known: Seq<KnownPart>,
    pub imported: nat,
    pub existing: nat,
    pub skipped: nat,
    pub manual: nat,
    pub pending: nat,
}

/// The import of the first `n` selected rows, in order: a skipped row is counted as
/// skipped; another becomes its draft (see `import_draft`), counted as existing when a
/// known part already stands for it, else added to the parts, counted as imported, and as
/// manual (no part number) or pending (waiting for a library part).
pub open spec fn import_run(
    sel: Seq<BomImportRow>,
    rows: Seq<BomRow>,
    lib: Seq<InventoryLibraryPart>,
    stock: Seq<InventoryPart>,
    n: int,
) -> ImportRun
    decreases n,
{
    if n <= 0 {
        ImportRun {
            drafts: Seq::empty(),
            known: stock.map_values(|p: InventoryPart| stock_known(p)),
            imported: 0,
            existing: 0,
            skipped: 0,
            manual: 0,
            pending: 0,
        }
    } else {
        let prev = import_run(sel, rows, lib, stock, n - 1);
        let s = sel[n - 1];
        if s.skipped {
            ImportRun { skipped: prev.skipped + 1, ..prev }
        } else {
            match row_at(rows, s.row_number) {
                None => prev,
                Some(j) => {
                    let d = import_draft(s, row_view(rows[j]), lib);
                    if already_stocked(prev.known, d) {
                        ImportRun { existing: prev.existing + 1, ..prev }
                    } else {
                        ImportRun {
                            drafts: prev.drafts.push(d),
                            known: prev.known.push(draft_known(d)),
                            imported: prev.imported + 1,
                            existing: prev.existing,
                            skipped: prev.skipped,
                            manual: prev.manual + if d.library_lcsc is None {
                                1nat
                            } else {
                                0nat
                            },
                            pending: prev.pending + if d.library_missing {
                                1nat
                            } else {
                                0nat
                            },
                        }
                    }
                },
            }
        }
    }
}

pub open spec fn import_incomplete_message() -> Seq<char> {
    "BOM import is incomplete; please preview the CSV again"@
}

/// A known part with the keys the queries compare by.
struct KnownEntry {
    lcsc_key: String,
    supplier_key: String,
    library_lcsc: Option<String>,
    source_file: Option<String>,
    symbol_name: Option<String>,
    name_key: String,
    package_key: String,
}

spec fn entry_for(e: KnownEntry, k: KnownPart) -> bool {
    &&& e.lcsc_key@ == stored_key(k.library_lcsc)
    &&& e.supplier_key@ == stored_key(k.supplier)
    &&& opt_view(e.library_lcsc) == k.library_lcsc
    &&& opt_view(e.source_file) == k.source_file
    &&& opt_view(e.symbol_name) == k.symbol_name
    &&& e.name_key@ == name_key(k.name)
    &&& e.package_key@ == package_key_of(k.package)
}

fn copy_opt(o: &Option<String>) -> (r: Option<String>)
    ensures
        opt_view(r) == opt_view(*o),
{
    match o {
        Some(s) => Some(s.clone()),
        None => None,
    }
}

fn entry_of(
    library_lcsc: &Option<String>,
    supplier: &Option<String>,
    source_file: &Option<String>,
    symbol_name: &Option<String>,
    name: &str,
    package: &str,
) -> (r: KnownEntry)
    ensures
        entry_for(
            r,
            KnownPart {
                library_lcsc: opt_view(*library_lcsc),
                supplier: opt_view(*supplier),
                source_file: opt_view(*source_file),
                symbol_name: opt_view(*symbol_name),
                name: name@,
                package: package@,
            },
        ),
{
    KnownEntry {
        lcsc_key: stored_key_of(library_lcsc),
        supplier_key: stored_key_of(supplier),
        library_lcsc: copy_opt(library_lcsc),
        source_file: copy_opt(source_file),
        symbol_name: copy_opt(symbol_name),
        name_key: component_name_key(name),
        package_key: package_key(package),
    }
}

fn same_opt(a: &Option<String>, b: &Option<String>) -> (r: bool)
    ensures
        r == (opt_view(*a) == opt_view(*b)),
{
    match (a, b) {
        (Some(x), Some(y)) => str_eq(x.as_str(), y.as_str()),
        (None, None) => true,
        _ => false,
    }
}

/// Whether the known entry stands for the draft (see `stocked_as`); `name_key` and
/// `package_key` are the draft's keys.
fn entry_stands_for(e: &KnownEntry, d: &ImportDraft, dname: &str, dpackage: &str) -> (r: bool)
    requires
        dname@ == name_key(d.name@),
        dpackage@ == package_key_of(d.package@),
    ensures
        forall|k: KnownPart| entry_for(*e, k) ==> (r == stocked_as(k, draft_view(*d))),
{
    match &d.library_lcsc {
        Some(l) => str_eq(e.lcsc_key.as_str(), l.as_str()) || str_eq(e.supplier_key.as_str(), l.as_str()),
        None => match (&d.source_file, &d.symbol_name) {
            (Some(f), Some(s)) => {
                let fo = Some(f.clone());
                let so = Some(s.clone());
                same_opt(&e.source_file, &fo) && same_opt(&e.symbol_name, &so)
            },
            _ => str_eq(e.name_key.as_str(), dname) && str_eq(e.package_key.as_str(), dpackage),
        },
    }
}

fn stands_for_any(entries: &Vec<KnownEntry>, Ghost(known): Ghost<Seq<KnownPart>>, d: &ImportDraft) -> (r: bool)
    requires
        entries@.len() == known.len(),
        forall|i: int| 0 <= i < known.len() ==> entry_for(#[trigger] entries@[i], known[i]),
    ensures
        r == already_stocked(known, draft_view(*d)),
{
    let dname = component_name_key(d.name.as_str());
    let dpackage = package_key(d.package.as_str());
    let mut k: usize = 0;
    while k < entries.len()
        invariant
            k <= entries@.len(),
            entries@.len() == known.len(),
            forall|i: int| 0 <= i < known.len() ==> entry_for(#[trigger] entries@[i], known[i]),
            dname@ == name_key(d.name@),
            dpackage@ == package_key_of(d.package@),
            forall|i: int| 0 <= i < k ==> !#[trigger] stocked_as(known[i], draft_view(*d)),
        decreases entries@.len() - k,
    {
        let hit = entry_stands_for(&entries[k], d, dname.as_str(), dpackage.as_str());
        assert(entry_for(entries@[k as int], known[k as int]));
        if hit {
            return true;
        }
        k = k + 1;
    }
    false
}

fn import_numbers_of(rows: &Vec<BomImportRow>) -> (r: Vec<usize>)
    ensures
        r@ == import_numbers(rows@),
{
    let mut out: Vec<usize> = Vec::new();
    let mut k: usize = 0;
    while k < rows.len()
        invariant
            k <= rows@.len(),
            out@ == import_numbers(rows@.take(k as int)),
        decreases rows@.len() - k,
    {
        out.push(rows[k].row_number);
        assert(import_numbers(rows@.take(k + 1)) =~= import_numbers(rows@.take(k as int)).push(rows@[k as int].row_number));
        k = k + 1;
    }
    assert(rows@.take(rows@.len() as int) =~= rows@);
    out
}

fn row_numbers_of(rows: &[BomRow]) -> (r: Vec<usize>)
    ensures
        r@ == row_numbers(rows@),
{
    let mut out: Vec<usize> = Vec::new();
    let mut k: usize = 0;
    while k < rows.len()
        invariant
            k <= rows@.len(),
            out@ == row_numbers(rows@.take(k as int)),
        decreases rows@.len() - k,
    {
        out.push(rows[k].row_number);
        assert(row_numbers(rows@.take(k + 1)) =~= row_numbers(rows@.take(k as int)).push(rows@[k as int].row_number));
        k = k + 1;
    }
    assert(rows@.take(rows@.len() as int) =~= rows@);
    out
}

fn stock_entries(stock: &[InventoryPart]) -> (r: Vec<KnownEntry>)
    ensures
        r@.len() == stock@.len(),
        forall|i: int| 0 <= i < stock@.len() ==> entry_for(#[trigger] r@[i], stock_known(stock@[i])),
{
    let mut out: Vec<KnownEntry> = Vec::new();
    let mut k: usize = 0;
    while k < stock.len()
        invariant
            k <= stock@.len(),
            out@.len() == k,
            forall|i: int| 0 <= i < k ==> entry_for(#[trigger] out@[i], stock_known(stock@[i])),
        decreases stock@.len() - k,
    {
        let p = &stock[k];
        let e = entry_of(
            &p.library_lcsc,
            &p.supplier_part_number,
            &p.library_source_file,
            &p.library_symbol_name,
            p.name.as_str(),
            p.package.as_str(),
        );
        out.push(e);
        k = k + 1;
    }
    out
}

pub open spec fn drafts_view(v: Seq<ImportDraft>) -> Seq<DraftView> {
    v.map_values(|d: ImportDraft| draft_view(d))
}

/// The location where a new part's stock starts.
pub open spec fn unassigned_location() -> Seq<char> {
    "未分配"@
}

/// A stock row at the unassigned location, with nothing in it and no priority.
pub open spec fn unassigned_row(l: InventoryLocation) -> bool {
    l.location@ == unassigned_location() && l.quantity == 0 && l.priority == 0
}

/// One starting stock row per new part, each empty at the unassigned location.
pub open spec fn starting_stock(rows: Seq<InventoryLocation>, parts: nat) -> bool {
    rows.len() == parts && forall|i: int| 0 <= i < rows.len() ==> #[trigger] unassigned_row(rows[i])
}

/// What importing a bill of materials writes: the new parts, the stock row each starts
/// with (in the same order), the counts, and the stock's revision afterwards (one more
/// when a part was added).
#[derive(Debug, Clone, PartialEq, Eq)]
pub struct BomImportPlan {
    pub drafts: Vec<ImportDraft>,
    pub stock_rows: Vec<InventoryLocation>,
    pub result: ImportBomResult,
    pub revision: i64,
}

/// Plans the import of a bill of materials into the stock: `rows` are the rows of its file,
/// `revision` the stock's revision now, `stock` the parts it holds and `library_parts` the
/// symbol libraries' parts. Refused when the request names no row, when its rows do not
/// name each row of the file once (see `coverage_error`), or when the stock changed since
/// the preview; otherwise the parts to add and the counts, as `import_run` gives them.
pub fn plan_bom_import(
    request: &ImportBomRequest,
    rows: &[BomRow],
    revision: i64,
    stock: &[InventoryPart],
    library_parts: &[InventoryLibraryPart],
) -> (r: Result<BomImportPlan, String>)
    requires
        revision < i64::MAX,
    ensures
        request.rows@.len() == 0 ==> (r matches Err(e) && e@ == "BOM import request is empty"@),
        request.rows@.len() > 0 ==> match coverage_error(
            row_numbers(rows@),
            import_numbers(request.rows@),
            import_incomplete_message(),
        ) {
            Some(e) => r matches Err(x) && x@ == e,
            None => if revision != request.revision {
                r matches Err(e) && e@ == "Inventory changed since preview; please preview the BOM again"@
            } else {
                r matches Ok(plan) && {
                    let t = import_run(
                        request.rows@,
                        rows@,
                        library_parts@,
                        stock@,
                        request.rows@.len() as int,
                    );
                    let res = plan.result;
                    &&& drafts_view(plan.drafts@) == t.drafts
                    &&& res.imported == t.imported
                    &&& res.existing == t.existing
                    &&& res.skipped == t.skipped
                    &&& res.manual == t.manual
                    &&& res.pending_library == t.pending
                    &&& res.imported + res.existing + res.skipped == request.rows@.len()
                    &&& starting_stock(plan.stock_rows@, plan.drafts@.len())
                    &&& plan.revision == if res.imported > 0 {
                        revision + 1
                    } else {
                        revision as int
                    }
                }
            },
        },
{
    if request.rows.len() == 0 {
        return Err("BOM import request is empty".to_owned());
    }
    let source_numbers = row_numbers_of(rows);
    let request_numbers = import_numbers_of(&request.rows);
    match check_row_coverage(
        source_numbers.as_slice(),
        request_numbers.as_slice(),
        "BOM import is incomplete; please preview the CSV again",
    ) {
        Err(e) => return Err(e),
        Ok(()) => {},
    }
    if revision != request.revision {
        return Err("Inventory changed since preview; please preview the BOM again".to_owned());
    }
    let ghost sel = request.rows@;
    let ghost lib = library_parts@;
    proof {
        assert(row_numbers(rows@).to_set() == import_numbers(sel).to_set());
    }
    let mut entries = stock_entries(stock);
    let ghost mut known: Seq<KnownPart> = stock@.map_values(|p: InventoryPart| stock_known(p));
    let mut drafts: Vec<ImportDraft> = Vec::new();
    let mut stock_rows: Vec<InventoryLocation> = Vec::new();
    let mut imported: usize = 0;
    let mut existing: usize = 0;
    let mut skipped: usize = 0;
    let mut manual: usize = 0;
    let mut pending: usize = 0;
    let mut k: usize = 0;
    while k < request.rows.len()
        invariant
            k <= sel.len(),
            sel == request.rows@,
            lib == library_parts@,
            row_numbers(rows@).to_set() == import_numbers(sel).to_set(),
            entries@.len() == known.len(),
            forall|i: int| 0 <= i < known.len() ==> entry_for(#[trigger] entries@[i], known[i]),
            ({
                let t = import_run(sel, rows@, lib, stock@, k as int);
                &&& known == t.known
                &&& drafts_view(drafts@) == t.drafts
                &&& imported == t.imported
                &&& existing == t.existing
                &&& skipped == t.skipped
                &&& manual == t.manual
                &&& pending == t.pending
            }),
            imported + existing + skipped == k,
            starting_stock(stock_rows@, drafts@.len()),
            manual <= k,
            pending <= k,
        decreases sel.len() - k,
    {
        let s = &request.rows[k];
        if s.skipped {
            skipped = skipped + 1;
        } else {
            proof {
                assert(import_numbers(sel)[k as int] == s.row_number);
                assert(import_numbers(sel).to_set().contains(s.row_number));
                lemma_row_at(rows@, s.row_number);
            }
            let j = match find_row(rows, s.row_number) {
                Some(j) => j,
                None => {
                    return Err(String::new());
                },
            };
            proof {
                lemma_row_at(rows@, s.row_number);
            }
            let d = plan_import_row(s, &rows[j], library_parts);
            if stands_for_any(&entries, Ghost(known), &d) {
                existing = existing + 1;
            } else {
                let e = entry_of(
                    &d.library_lcsc,
                    &d.supplier_part_number,
                    &d.source_file,
                    &d.symbol_name,
                    d.name.as_str(),
                    d.package.as_str(),
                );
                entries.push(e);
                proof {
                    known = known.push(draft_known(draft_view(d)));
                }
                if d.library_lcsc.is_none() {
                    manual = manual + 1;
                }
                if d.library_missing {
                    pending = pending + 1;
                }
                let ghost before = drafts_view(drafts@);
                let ghost rows_before = stock_rows@;
                stock_rows.push(InventoryLocation { location: "未分配".to_owned(), quantity: 0, priority: 0 });
                assert(stock_rows@[stock_rows@.len() - 1] == stock_rows@.last());
                assert forall|i: int| 0 <= i < stock_rows@.len() implies #[trigger] unassigned_row(stock_rows@[i]) by {
                    if i < rows_before.len() {
                        assert(stock_rows@[i] == rows_before[i]);
                    }
                }
                drafts.push(d);
                assert(drafts_view(drafts@) =~= before.push(draft_view(d)));
                imported = imported + 1;
            }
        }
        k = k + 1;
    }
    let new_revision = if imported > 0 {
        revision + 1
    } else {
        revision
    };
    Ok(
        BomImportPlan {
            drafts,
            result: ImportBomResult { imported, existing, skipped, manual, pending_library: pending },
            stock_rows,
            revision: new_revision,
        },
    )
}


/// The row numbers that a deduction request names.
pub open spec fn deduction_numbers(rows: Seq<BomDeductionRow>) -> Seq<usize> {
    rows.map_values(|r: BomDeductionRow| r.row_number)
}

pub open spec fn deduction_incomplete_message() -> Seq<char> {
    "BOM preview is incomplete; please preview the CSV again"@
}

/// Whether the stock holds a part with id `id`.
pub open spec fn has_part(stock: Seq<InventoryPart>, id: Seq<char>) -> bool {
    exists|i: int| 0 <= i < stock.len() && (#[trigger] stock[i]).id@ == id
}

/// Whether the stock holds part `id` at location `location`.
pub open spec fn stocked_at(stock: Seq<InventoryPart>, id: Seq<char>, location: Seq<char>) -> bool {
    exists|i: int, j: int|
        0 <= i < stock.len() && 0 <= j < stock[i].locations@.len() && (#[trigger] stock[i]).id@ == id
            && (#[trigger] stock[i].locations@[j]).location@ == location
}

/// The first of the first `m` allocations of row `n` (for part `id`) that cannot be taken:
/// a location named twice, or one where the part is not stocked.
pub open spec fn allocation_error(
    a: Seq<InventoryAllocation>,
    id: Seq<char>,
    stock: Seq<InventoryPart>,
    n: usize,
    m: int,
) -> Option<Seq<char>>
    decreases m,
{
    if m <= 0 {
        None
    } else {
        match allocation_error(a, id, stock, n, m - 1) {
            Some(e) => Some(e),
            None => if first_location_repeat(a, m - 1) {
                Some("Duplicate location in BOM row "@ + decimal(n as nat))
            } else if !stocked_at(stock, id, a[m - 1].location@) {
                Some("Location not found for BOM row "@ + decimal(n as nat) + ": "@ + a[m - 1].location@)
            } else {
                None
            },
        }
    }
}

/// Why a row cannot take its stock (`required` being what it needs): its allocations are
/// not valid (see `deduction_error`), its part is not in stock, or an allocation cannot be
/// taken (see `allocation_error`). A skipped row takes nothing.
pub open spec fn row_take_error(row: BomDeductionRow, required: u64, stock: Seq<InventoryPart>) -> Option<
    Seq<char>,
> {
    if row.skipped {
        None
    } else {
        match deduction_error(row, required) {
            Some(e) => Some(e),
            None => if !has_part(stock, row.part_id->Some_0@) {
                Some("Inventory part not found for BOM row "@ + decimal(row.row_number as nat))
            } else {
                allocation_error(
                    row.allocations@,
                    row.part_id->Some_0@,
                    stock,
                    row.row_number,
                    row.allocations@.len() as int,
                )
            },
        }
    }
}

/// The stock row `r` of a request needs for `boards` boards: its quantity in the file
/// times the boards.
pub open spec fn row_required(r: BomDeductionRow, rows: Seq<BomRow>, boards: u64) -> u64 {
    match row_at(rows, r.row_number) {
        Some(j) => required_for(rows[j].quantity, boards) as u64,
        None => 0,
    }
}

/// The first error among the first `n` rows of a request, in order.
pub open spec fn rows_take_error(
    req: Seq<BomDeductionRow>,
    rows: Seq<BomRow>,
    stock: Seq<InventoryPart>,
    boards: u64,
    n: int,
) -> Option<Seq<char>>
    decreases n,
{
    if n <= 0 {
        None
    } else {
        match rows_take_error(req, rows, stock, boards, n - 1) {
            Some(e) => Some(e),
            None => row_take_error(req[n - 1], row_required(req[n - 1], rows, boards), stock),
        }
    }
}

/// A stock change as values: part, location, and the change.
pub open spec fn adjustment_view(a: InventoryStockAdjustment) -> (Seq<char>, Seq<char>, int) {
    (a.part_id@, a.location@, a.delta as int)
}

/// The stock the first `n` rows take, in order: each allocation of each row not skipped
/// takes its quantity from its part at its location.
pub open spec fn taken(req: Seq<BomDeductionRow>, n: int) -> Seq<(Seq<char>, Seq<char>, int)>
    decreases n,
{
    if n <= 0 {
        Seq::empty()
    } else if req[n - 1].skipped {
        taken(req, n - 1)
    } else {
        taken(req, n - 1) + req[n - 1].allocations@.map_values(
            |a: InventoryAllocation| (a.part_id@, a.location@, -(a.quantity as int)),
        )
    }
}

/// How many of the first `n` rows are skipped.
pub open spec fn skipped_count(req: Seq<BomDeductionRow>, n: int) -> nat
    decreases n,
{
    if n <= 0 {
        0
    } else {
        skipped_count(req, n - 1) + if req[n - 1].skipped {
            1nat
        } else {
            0nat
        }
    }
}

/// One row of a production record: the file's row, what it needed, and either the part it
/// took from (with the location and quantity of each allocation) or why it was skipped.
#[derive(Debug, Clone, PartialEq, Eq)]
pub struct ProductionItem {
    pub row_number: usize,
    pub identifier: String,
    pub references: String,
    pub supplier_part_number: Option<String>,
    pub name: String,
    pub package: String,
    pub quantity_per_board: u64,
    pub required_quantity: u64,
    pub part_id: Option<String>,
    pub skipped_reason: Option<String>,
    pub allocations: Vec<(String, i64)>,
}

/// A production record item by value.
pub struct ItemView {
    pub row_number: usize,
    pub identifier: Seq<char>,
    pub references: Seq<char>,
    pub supplier_part_number: Option<Seq<char>>,
    pub name: Seq<char>,
    pub package: Seq<char>,
    pub quantity_per_board: u64,
    pub required_quantity: u64,
    pub part_id: Option<Seq<char>>,
    pub skipped_reason: Option<Seq<char>>,
    pub allocations: Seq<(Seq<char>, i64)>,
}

pub open spec fn item_view(i: ProductionItem) -> ItemView {
    ItemView {
        row_number: i.row_number,
        identifier: i.identifier@,
        references: i.references@,
        supplier_part_number: opt_view(i.supplier_part_number),
        name: i.name@,
        package: i.package@,
        quantity_per_board: i.quantity_per_board,
        required_quantity: i.required_quantity,
        part_id: opt_view(i.part_id),
        skipped_reason: opt_view(i.skipped_reason),
        allocations: i.allocations@.map_values(|a: (String, i64)| (a.0@, a.1)),
    }
}

/// Why a row is recorded as skipped.
pub open spec fn skipped_by_user() -> Seq<char> {
    "用户跳过"@
}

/// The record of request row `r`, whose row of the file is `src`, for `boards` boards.
pub open spec fn planned_item(r: BomDeductionRow, src: BomRow, boards: u64) -> ItemView {
    ItemView {
        row_number: src.row_number,
        identifier: src.identifier@,
        references: src.references@,
        supplier_part_number: opt_view(src.supplier_part_number),
        name: src.name@,
        package: src.package@,
        quantity_per_board: src.quantity,
        required_quantity: required_for(src.quantity, boards) as u64,
        part_id: if r.skipped {
            None
        } else {
            opt_view(r.part_id)
        },
        skipped_reason: if r.skipped {
            Some(skipped_by_user())
        } else {
            None
        },
        allocations: if r.skipped {
            Seq::empty()
        } else {
            r.allocations@.map_values(|a: InventoryAllocation| (a.location@, a.quantity))
        },
    }
}

/// The record items of the first `n` request rows, one per row in order.
pub open spec fn planned_items(req: Seq<BomDeductionRow>, rows: Seq<BomRow>, boards: u64, n: int) -> Seq<ItemView> {
    Seq::new(n as nat, |i: int| planned_item(req[i], rows[row_at(rows, req[i].row_number)->Some_0], boards))
}

/// The production record of a deduction, before it is stored.
#[derive(Debug, Clone, PartialEq, Eq)]
pub struct ProductionRecordPlan {
    pub path: String,
    pub boards: u64,
    pub total_rows: usize,
    pub matched_rows: usize,
    pub skipped_rows: usize,
}

/// What a deduction does once checked: the stock changes, the production record and its
/// items, and the stock's revision afterwards.
#[derive(Debug, Clone, PartialEq, Eq)]
pub struct DeductionPlan {
    pub adjustments: Vec<InventoryStockAdjustment>,
    pub record: ProductionRecordPlan,
    pub items: Vec<ProductionItem>,
    pub revision: i64,
}

fn copy_text(s: &str) -> (r: String)
    ensures
        r@ == s@,
{
    string_from(chars_of(s).as_slice())
}

fn record_item(r: &BomDeductionRow, src: &BomRow, boards: u64, required: u64) -> (it: ProductionItem)
    requires
        required == required_for(src.quantity, boards) as u64,
    ensures
        item_view(it) == planned_item(*r, *src, boards),
{
    let mut allocations: Vec<(String, i64)> = Vec::new();
    if !r.skipped {
        let ghost al = r.allocations@;
        let mut m: usize = 0;
        while m < r.allocations.len()
            invariant
                m <= al.len(),
                al == r.allocations@,
                allocations@.map_values(|a: (String, i64)| (a.0@, a.1)) == al.take(m as int).map_values(
                    |a: InventoryAllocation| (a.location@, a.quantity),
                ),
            decreases al.len() - m,
        {
            let ghost before = allocations@.map_values(|a: (String, i64)| (a.0@, a.1));
            allocations.push((copy_text(r.allocations[m].location.as_str()), r.allocations[m].quantity));
            assert(allocations@.map_values(|a: (String, i64)| (a.0@, a.1)) =~= before.push(
                (al[m as int].location@, al[m as int].quantity),
            ));
            assert(al.take(m + 1).map_values(|a: InventoryAllocation| (a.location@, a.quantity)) =~= al.take(
                m as int,
            ).map_values(|a: InventoryAllocation| (a.location@, a.quantity)).push(
                (al[m as int].location@, al[m as int].quantity),
            ));
            m = m + 1;
        }
        assert(al.take(al.len() as int) =~= al);
    } else {
        assert(allocations@.map_values(|a: (String, i64)| (a.0@, a.1)) =~= Seq::<(Seq<char>, i64)>::empty());
    }
    ProductionItem {
        row_number: src.row_number,
        identifier: copy_text(src.identifier.as_str()),
        references: copy_text(src.references.as_str()),
        supplier_part_number: copy_opt(&src.supplier_part_number),
        name: copy_text(src.name.as_str()),
        package: copy_text(src.package.as_str()),
        quantity_per_board: src.quantity,
        required_quantity: required,
        part_id: if r.skipped {
            None
        } else {
            copy_opt(&r.part_id)
        },
        skipped_reason: if r.skipped {
            Some("用户跳过".to_owned())
        } else {
            None
        },
        allocations,
    }
}

fn numbered_row(prefix: &str, n: usize) -> (r: String)
    ensures
        r@ == prefix@ + decimal(n as nat),
{
    let mut v: Vec<char> = Vec::new();
    extend_str(&mut v, prefix);
    let d = crate::text::decimal_string(n as u64);
    extend_str(&mut v, d.as_str());
    string_from(v.as_slice())
}

proof fn lemma_allocation_error_stays(
    a: Seq<InventoryAllocation>,
    id: Seq<char>,
    stock: Seq<InventoryPart>,
    n: usize,
    m: int,
    k: int,
)
    requires
        0 <= m <= k,
        allocation_error(a, id, stock, n, m) is Some,
    ensures
        allocation_error(a, id, stock, n, k) == allocation_error(a, id, stock, n, m),
    decreases k - m,
{
    if k > m {
        lemma_allocation_error_stays(a, id, stock, n, m, k - 1);
    }
}

proof fn lemma_rows_error_stays(
    req: Seq<BomDeductionRow>,
    rows: Seq<BomRow>,
    stock: Seq<InventoryPart>,
    boards: u64,
    m: int,
    k: int,
)
    requires
        0 <= m <= k,
        rows_take_error(req, rows, stock, boards, m) is Some,
    ensures
        rows_take_error(req, rows, stock, boards, k) == rows_take_error(req, rows, stock, boards, m),
    decreases k - m,
{
    if k > m {
        lemma_rows_error_stays(req, rows, stock, boards, m, k - 1);
    }
}

fn find_part(stock: &[InventoryPart], id: &str) -> (r: Option<usize>)
    ensures
        r is Some <==> has_part(stock@, id@),
        r matches Some(i) ==> i < stock@.len() && stock@[i as int].id@ == id@,
{
    let mut k: usize = 0;
    while k < stock.len()
        invariant
            k <= stock@.len(),
            forall|i: int| 0 <= i < k ==> (#[trigger] stock@[i]).id@ != id@,
        decreases stock@.len() - k,
    {
        if str_eq(stock[k].id.as_str(), id) {
            return Some(k);
        }
        k = k + 1;
    }
    proof {
        false_has_part(stock@, id@);
    }
    None
}

proof fn false_has_part(stock: Seq<InventoryPart>, id: Seq<char>)
    requires
        forall|i: int| 0 <= i < stock.len() ==> (#[trigger] stock[i]).id@ != id,
    ensures
        !has_part(stock, id),
{
}

fn is_stocked_at(stock: &[InventoryPart], id: &str, location: &str) -> (r: bool)
    ensures
        r == stocked_at(stock@, id@, location@),
{
    let mut k: usize = 0;
    while k < stock.len()
        invariant
            k <= stock@.len(),
            forall|i: int, j: int|
                0 <= i < k && 0 <= j < stock@[i].locations@.len() && (#[trigger] stock@[i]).id@ == id@
                    ==> (#[trigger] stock@[i].locations@[j]).location@ != location@,
        decreases stock@.len() - k,
    {
        if str_eq(stock[k].id.as_str(), id) {
            let locs = &stock[k].locations;
            let mut j: usize = 0;
            while j < locs.len()
                invariant
                    k < stock@.len(),
                    locs == stock@[k as int].locations,
                    stock@[k as int].id@ == id@,
                    j <= locs@.len(),
                    forall|m: int| 0 <= m < j ==> (#[trigger] locs@[m]).location@ != location@,
                decreases locs@.len() - j,
            {
                if str_eq(locs[j].location.as_str(), location) {
                    assert(stock@[k as int].locations@[j as int].location@ == location@);
                    return true;
                }
                j = j + 1;
            }
        }
        k = k + 1;
    }
    false
}

/// Checks the allocations of row `n` for part `id` (see `allocation_error`).
fn check_allocations(a: &Vec<InventoryAllocation>, id: &str, stock: &[InventoryPart], n: usize) -> (r: Result<(), String>)
    ensures
        match allocation_error(a@, id@, stock@, n, a@.len() as int) {
            Some(e) => r matches Err(x) && x@ == e,
            None => r is Ok,
        },
{
    let mut m: usize = 0;
    while m < a.len()
        invariant
            m <= a@.len(),
            allocation_error(a@, id@, stock@, n, m as int) is None,
        decreases a@.len() - m,
    {
        if repeats_location(a.as_slice(), m) {
            proof {
                lemma_allocation_error_stays(a@, id@, stock@, n, m + 1, a@.len() as int);
            }
            return Err(numbered_row("Duplicate location in BOM row ", n));
        }
        if !is_stocked_at(stock, id, a[m].location.as_str()) {
            let mut v: Vec<char> = Vec::new();
            extend_str(&mut v, "Location not found for BOM row ");
            let d = crate::text::decimal_string(n as u64);
            extend_str(&mut v, d.as_str());
            extend_str(&mut v, ": ");
            extend_str(&mut v, a[m].location.as_str());
            proof {
                lemma_allocation_error_stays(a@, id@, stock@, n, m + 1, a@.len() as int);
            }
            return Err(string_from(v.as_slice()));
        }
        m = m + 1;
    }
    Ok(())
}

/// Plans taking the stock for a bill of materials: `rows` are the rows of its file,
/// `stock` the parts in stock and `revision` the stock's revision now. Refused for no
/// boards or no rows, for rows that do not name each row of the file once (see
/// `coverage_error`), when the stock changed since the preview, or at the first row whose
/// stock cannot be taken (see `rows_take_error`); otherwise the stock changes (see
/// `taken`) and the counts of rows that took stock and rows skipped.
pub fn plan_bom_deduction(
    request: &ConfirmBomDeductionRequest,
    rows: &[BomRow],
    stock: &[InventoryPart],
    revision: i64,
) -> (r: Result<DeductionPlan, String>)
    requires
        revision < i64::MAX,
    ensures
        (request.boards == 0 || request.rows@.len() == 0) ==> (r matches Err(e) && e@
            == "Invalid BOM deduction request"@),
        !(request.boards == 0 || request.rows@.len() == 0) ==> match coverage_error(
            row_numbers(rows@),
            deduction_numbers(request.rows@),
            deduction_incomplete_message(),
        ) {
            Some(e) => r matches Err(x) && x@ == e,
            None => if revision != request.revision {
                r matches Err(e) && e@ == "Inventory changed since preview; please preview the CSV again"@
            } else {
                match rows_take_error(request.rows@, rows@, stock@, request.boards, request.rows@.len() as int) {
                    Some(e) => r matches Err(x) && x@ == e,
                    None => r matches Ok(p) && {
                        &&& p.adjustments@.map_values(|a: InventoryStockAdjustment| adjustment_view(a))
                            == taken(request.rows@, request.rows@.len() as int)
                        &&& p.record.path@ == request.path@
                        &&& p.record.boards == request.boards
                        &&& p.record.total_rows == request.rows@.len()
                        &&& p.record.skipped_rows == skipped_count(request.rows@, request.rows@.len() as int)
                        &&& p.record.matched_rows + p.record.skipped_rows == request.rows@.len()
                        &&& p.items@.map_values(|i: ProductionItem| item_view(i)) == planned_items(
                            request.rows@,
                            rows@,
                            request.boards,
                            request.rows@.len() as int,
                        )
                        &&& p.revision == revision + 1
                    },
                }
            },
        },
{
    if request.boards == 0 || request.rows.len() == 0 {
        return Err("Invalid BOM deduction request".to_owned());
    }
    let source_numbers = row_numbers_of(rows);
    let mut request_numbers: Vec<usize> = Vec::new();
    let mut q: usize = 0;
    while q < request.rows.len()
        invariant
            q <= request.rows@.len(),
            request_numbers@ == deduction_numbers(request.rows@.take(q as int)),
        decreases request.rows@.len() - q,
    {
        request_numbers.push(request.rows[q].row_number);
        assert(deduction_numbers(request.rows@.take(q + 1)) =~= deduction_numbers(request.rows@.take(q as int)).push(
            request.rows@[q as int].row_number,
        ));
        q = q + 1;
    }
    assert(request.rows@.take(request.rows@.len() as int) =~= request.rows@);
    match check_row_coverage(
        source_numbers.as_slice(),
        request_numbers.as_slice(),
        "BOM preview is incomplete; please preview the CSV again",
    ) {
        Err(e) => return Err(e),
        Ok(()) => {},
    }
    if revision != request.revision {
        return Err("Inventory changed since preview; please preview the CSV again".to_owned());
    }
    let ghost req = request.rows@;
    let mut adjustments: Vec<InventoryStockAdjustment> = Vec::new();
    let mut items: Vec<ProductionItem> = Vec::new();
    let mut skipped: usize = 0;
    let mut k: usize = 0;
    while k < request.rows.len()
        invariant
            k <= req.len(),
            req == request.rows@,
            request.boards > 0,
            req.len() > 0,
            revision == request.revision,
            coverage_error(row_numbers(rows@), deduction_numbers(req), deduction_incomplete_message()) is None,
            row_numbers(rows@).to_set() == deduction_numbers(req).to_set(),
            rows_take_error(req, rows@, stock@, request.boards, k as int) is None,
            adjustments@.map_values(|a: InventoryStockAdjustment| adjustment_view(a)) == taken(req, k as int),
            skipped == skipped_count(req, k as int),
            skipped <= k,
            items@.map_values(|i: ProductionItem| item_view(i)) == planned_items(req, rows@, request.boards, k as int),
        decreases req.len() - k,
    {
        let row = &request.rows[k];
        proof {
            assert(deduction_numbers(req)[k as int] == row.row_number);
            assert(deduction_numbers(req).to_set().contains(row.row_number));
            lemma_row_at(rows@, row.row_number);
        }
        let j = match find_row(rows, row.row_number) {
            Some(j) => j,
            None => {
                return Err(String::new());
            },
        };
        proof {
            lemma_row_at(rows@, row.row_number);
        }
        let required = required_quantity(rows[j].quantity, request.boards);
        assert(required == row_required(*row, rows@, request.boards));
        let ghost items_before = items@.map_values(|i: ProductionItem| item_view(i));
        if row.skipped {
            skipped = skipped + 1;
        } else {
            match check_deduction_row(row, required) {
                Err(e) => {
                    proof {
                        assert(req[k as int] == *row);
                        assert(row_take_error(*row, required, stock@) == Some(e@));
                        assert(rows_take_error(req, rows@, stock@, request.boards, k + 1) == Some(e@));
                        lemma_rows_error_stays(req, rows@, stock@, request.boards, k + 1, req.len() as int);
                    }
                    return Err(e);
                },
                Ok(()) => {},
            }
            let part_id = match &row.part_id {
                Some(p) => p,
                None => return Err(String::new()),
            };
            if find_part(stock, part_id.as_str()).is_none() {
                proof {
                    assert(req[k as int] == *row);
                    assert(deduction_error(*row, required) is None);
                    assert(!has_part(stock@, row.part_id->Some_0@));
                    lemma_rows_error_stays(req, rows@, stock@, request.boards, k + 1, req.len() as int);
                }
                return Err(numbered_row("Inventory part not found for BOM row ", row.row_number));
            }
            match check_allocations(&row.allocations, part_id.as_str(), stock, row.row_number) {
                Err(e) => {
                    proof {
                        lemma_rows_error_stays(req, rows@, stock@, request.boards, k + 1, req.len() as int);
                    }
                    return Err(e);
                },
                Ok(()) => {},
            }
            let ghost before = adjustments@.map_values(|a: InventoryStockAdjustment| adjustment_view(a));
            let ghost al = row.allocations@;
            let ghost mapped = al.map_values(
                |a: InventoryAllocation| (a.part_id@, a.location@, -(a.quantity as int)),
            );
            let mut m: usize = 0;
            while m < row.allocations.len()
                invariant
                    m <= al.len(),
                    al == row.allocations@,
                    mapped == al.map_values(
                        |a: InventoryAllocation| (a.part_id@, a.location@, -(a.quantity as int)),
                    ),
                    forall|i: int| 0 <= i < al.len() ==> (#[trigger] al[i]).quantity > 0,
                    adjustments@.map_values(|a: InventoryStockAdjustment| adjustment_view(a)) == before
                        + mapped.take(m as int),
                decreases al.len() - m,
            {
                let a = &row.allocations[m];
                assert(al[m as int].quantity > 0);
                let adj = InventoryStockAdjustment {
                    part_id: a.part_id.clone(),
                    location: a.location.clone(),
                    delta: -a.quantity,
                };
                let ghost prevmap = adjustments@.map_values(|a: InventoryStockAdjustment| adjustment_view(a));
                adjustments.push(adj);
                assert(adjustment_view(adjustments@.last()) == mapped[m as int]);
                assert(adjustments@.map_values(|a: InventoryStockAdjustment| adjustment_view(a)) =~= prevmap.push(mapped[m as int]));
                assert(prevmap.push(mapped[m as int]) =~= before + mapped.take(m as int).push(mapped[m as int]));
                assert(mapped.take(m + 1) =~= mapped.take(m as int).push(mapped[m as int]));
                assert(adjustments@.map_values(|a: InventoryStockAdjustment| adjustment_view(a)) =~= before
                    + mapped.take(m as int).push(mapped[m as int]));
                m = m + 1;
            }
            assert(mapped.take(al.len() as int) =~= mapped);
        }
        let item = record_item(row, &rows[j], request.boards, required);
        items.push(item);
        proof {
            assert(req[k as int] == *row);
            assert(item_view(item) == planned_item(req[k as int], rows@[j as int], request.boards));
            assert(items@.map_values(|i: ProductionItem| item_view(i)) =~= items_before.push(item_view(item)));
            assert(planned_items(req, rows@, request.boards, k + 1) =~= planned_items(req, rows@, request.boards, k as int).push(
                item_view(item),
            ));
        }
        k = k + 1;
    }
    Ok(
        DeductionPlan {
            adjustments,
            record: ProductionRecordPlan {
                path: copy_text(request.path.as_str()),
                boards: request.boards,
                total_rows: request.rows.len(),
                matched_rows: request.rows.len() - skipped,
                skipped_rows: skipped,
            },
            items,
            revision: revision + 1,
        },
    )
}

/// A stored part as far as a library sync reads and changes it.
#[derive(Debug, Clone, PartialEq, Eq)]
pub struct PartLink {
    pub id: String,
    pub library_lcsc: Option<String>,
    pub library_symbol_name: Option<String>,
    pub library_source_file: Option<String>,
    pub supplier_part_number: Option<String>,
    pub name: String,
    pub package: String,
    pub library_missing: bool,
}

/// A stored part's link to the libraries, by value.
pub struct LinkView {
    pub id: Seq<char>,
    pub lcsc: Option<Seq<char>>,
    pub symbol: Option<Seq<char>>,
    pub source: Option<Seq<char>>,
    pub supplier: Option<Seq<char>>,
    pub name: Seq<char>,
    pub package: Seq<char>,
    pub missing: bool,
}

pub open spec fn link_view(p: PartLink) -> LinkView {
    LinkView {
        id: p.id@,
        lcsc: opt_string_view(p.library_lcsc),
        symbol: opt_string_view(p.library_symbol_name),
        source: opt_string_view(p.library_source_file),
        supplier: opt_string_view(p.supplier_part_number),
        name: p.name@,
        package: p.package@,
        missing: p.library_missing,
    }
}

pub open spec fn links_view(v: Seq<PartLink>) -> Seq<LinkView> {
    v.map_values(|p: PartLink| link_view(p))
}

/// Whether a stored part is linked to a library (by part number or by file).
pub open spec fn linked(v: LinkView) -> bool {
    v.lcsc is Some || v.source is Some
}

/// A stored part at the start of a sync: marked missing when it is linked.
pub open spec fn marked(p: InventoryPart) -> LinkView {
    let v = LinkView {
        id: p.id@,
        lcsc: opt_string_view(p.library_lcsc),
        symbol: opt_string_view(p.library_symbol_name),
        source: opt_string_view(p.library_source_file),
        supplier: opt_string_view(p.supplier_part_number),
        name: p.name@,
        package: p.package@,
        missing: p.library_missing,
    };
    if linked(v) {
        LinkView { missing: true, ..v }
    } else {
        v
    }
}

/// Whether a stored part follows the library item with part number `lcsc` (compared as the
/// stock's queries compare it), or, without one, file `source` and symbol `symbol`.
pub open spec fn follows(v: LinkView, lcsc: Option<Seq<char>>, source: Seq<char>, symbol: Seq<char>) -> bool {
    match lcsc {
        Some(l) => stored_key(v.lcsc) == l,
        None => v.source == Some(source) && v.symbol == Some(symbol),
    }
}

/// The first stored part from `i` on that follows the item.
pub open spec fn first_follower(
    vs: Seq<LinkView>,
    lcsc: Option<Seq<char>>,
    source: Seq<char>,
    symbol: Seq<char>,
    i: int,
) -> Option<int>
    decreases vs.len() - i,
{
    if i < 0 || i >= vs.len() {
        None
    } else if follows(vs[i], lcsc, source, symbol) {
        Some(i)
    } else {
        first_follower(vs, lcsc, source, symbol, i + 1)
    }
}

/// Whether a stored part differs from the item it follows (see `needs_update`).
pub open spec fn link_differs(v: LinkView, item: InventoryLibraryPart, value: Seq<char>, symbol: Seq<char>) -> bool {
    ||| v.symbol != Some(symbol)
    ||| v.source != Some(item.source_file@)
    ||| v.supplier != number_key(item.lcsc_part@)
    ||| v.name != value
    ||| next_package(v.package, item.package@) != v.package
    ||| v.missing
}

/// The stored parts after bringing those that follow the item up to date with it.
pub open spec fn brought_up(
    vs: Seq<LinkView>,
    item: InventoryLibraryPart,
    value: Seq<char>,
    symbol: Seq<char>,
    package: Seq<char>,
) -> Seq<LinkView> {
    Seq::new(
        vs.len(),
        |i: int|
            if follows(vs[i], number_key(item.lcsc_part@), item.source_file@, symbol) {
                LinkView {
                    id: vs[i].id,
                    lcsc: number_key(item.lcsc_part@),
                    symbol: Some(symbol),
                    source: Some(item.source_file@),
                    supplier: number_key(item.lcsc_part@),
                    name: value,
                    package,
                    missing: false,
                }
            } else {
                vs[i]
            },
    )
}

/// How far a sync has come: the stored parts, the identities already handled, and whether
/// anything changed.
pub struct SyncRun {
    pub links: Seq<LinkView>,
    pub seen: Seq<Seq<char>>,
    pub changed: bool,
}

/// A library sync over the first `n` library items, in order: every linked part starts
/// marked missing; an item without an identity, or with one already handled, is passed
/// over; otherwise its value and symbol must not be blank, and the first stored part that
/// follows it, when it differs from it, has every part that follows it brought up to date
/// (with the first one's package unless the item has one).
pub open spec fn sync_run(stock: Seq<InventoryPart>, items: Seq<InventoryLibraryPart>, n: int) -> Result<
    SyncRun,
    Seq<char>,
>
    decreases n,
{
    if n <= 0 {
        Ok(
            SyncRun {
                links: stock.map_values(|p: InventoryPart| marked(p)),
                seen: Seq::empty(),
                changed: exists|i: int|
                    0 <= i < stock.len() && linked(marked(stock[i])) && !(#[trigger] stock[i]).library_missing,
            },
        )
    } else {
        match sync_run(stock, items, n - 1) {
            Err(e) => Err(e),
            Ok(t) => {
                let item = items[n - 1];
                match library_identity(item) {
                    None => Ok(t),
                    Some(id) => if t.seen.contains(id) {
                        Ok(t)
                    } else if trim(item.value@).len() == 0 {
                        Err("Library value"@ + " is required"@)
                    } else if trim(item.symbol_name@).len() == 0 {
                        Err("Library symbol"@ + " is required"@)
                    } else {
                        let value = trim(item.value@);
                        let symbol = trim(item.symbol_name@);
                        let seen = t.seen.push(id);
                        match first_follower(t.links, number_key(item.lcsc_part@), item.source_file@, symbol, 0) {
                            None => Ok(SyncRun { seen, ..t }),
                            Some(j) => if link_differs(t.links[j], item, value, symbol) {
                                Ok(
                                    SyncRun {
                                        links: brought_up(
                                            t.links,
                                            item,
                                            value,
                                            symbol,
                                            next_package(t.links[j].package, item.package@),
                                        ),
                                        seen,
                                        changed: true,
                                    },
                                )
                            } else {
                                Ok(SyncRun { seen, ..t })
                            },
                        }
                    },
                }
            },
        }
    }
}

fn copy_opt_s(o: &Option<String>) -> (r: Option<String>)
    ensures
        opt_string_view(r) == opt_string_view(*o),
{
    match o {
        Some(s) => Some(s.clone()),
        None => None,
    }
}

fn marked_link(p: &InventoryPart) -> (r: PartLink)
    ensures
        link_view(r) == marked(*p),
{
    let linked_now = p.library_lcsc.is_some() || p.library_source_file.is_some();
    PartLink {
        id: p.id.clone(),
        library_lcsc: copy_opt_s(&p.library_lcsc),
        library_symbol_name: copy_opt_s(&p.library_symbol_name),
        library_source_file: copy_opt_s(&p.library_source_file),
        supplier_part_number: copy_opt_s(&p.supplier_part_number),
        name: p.name.clone(),
        package: p.package.clone(),
        library_missing: if linked_now { true } else { p.library_missing },
    }
}

fn same_opt_s(a: &Option<String>, b: &Option<String>) -> (r: bool)
    ensures
        r == (opt_string_view(*a) == opt_string_view(*b)),
{
    match (a, b) {
        (Some(x), Some(y)) => str_eq(x.as_str(), y.as_str()),
        (None, None) => true,
        _ => false,
    }
}

fn link_follows(p: &PartLink, lcsc: &Option<String>, source: &str, symbol: &str) -> (r: bool)
    ensures
        r == follows(link_view(*p), opt_string_view(*lcsc), source@, symbol@),
{
    match lcsc {
        Some(l) => {
            let k = stored_key_of(&p.library_lcsc);
            assert(opt_view(p.library_lcsc) == opt_string_view(p.library_lcsc));
            str_eq(k.as_str(), l.as_str())
        },
        None => {
            let so = Some(source.to_owned());
            let sy = Some(symbol.to_owned());
            same_opt_s(&p.library_source_file, &so) && same_opt_s(&p.library_symbol_name, &sy)
        },
    }
}

fn find_follower(links: &Vec<PartLink>, lcsc: &Option<String>, source: &str, symbol: &str) -> (r: Option<usize>)
    ensures
        opt_index(r) == first_follower(links_view(links@), opt_string_view(*lcsc), source@, symbol@, 0),
        r matches Some(j) ==> j < links@.len(),
{
    let mut j: usize = 0;
    while j < links.len()
        invariant
            j <= links@.len(),
            first_follower(links_view(links@), opt_string_view(*lcsc), source@, symbol@, 0)
                == first_follower(links_view(links@), opt_string_view(*lcsc), source@, symbol@, j as int),
        decreases links@.len() - j,
    {
        assert(links_view(links@)[j as int] == link_view(links@[j as int]));
        if link_follows(&links[j], lcsc, source, symbol) {
            return Some(j);
        }
        j = j + 1;
    }
    None
}

fn seen_contains(seen: &Vec<String>, id: &str) -> (r: bool)
    ensures
        r == seen@.map_values(|s: String| s@).contains(id@),
{
    let ghost sv = seen@.map_values(|s: String| s@);
    let mut k: usize = 0;
    while k < seen.len()
        invariant
            k <= seen@.len(),
            sv == seen@.map_values(|s: String| s@),
            forall|i: int| 0 <= i < k ==> sv[i] != id@,
        decreases seen@.len() - k,
    {
        if str_eq(seen[k].as_str(), id) {
            assert(sv[k as int] == id@);
            return true;
        }
        k = k + 1;
    }
    false
}

/// Plans a sync of the stock with the parts of the symbol libraries (see `sync_run`): the
/// stored parts afterwards, in the stock's order, and whether anything changed; refused
/// when an item to follow has a blank value or symbol.
pub fn plan_library_sync(stock: &[InventoryPart], items: &[InventoryLibraryPart]) -> (r: Result<
    (Vec<PartLink>, bool),
    String,
>)
    ensures
        match sync_run(stock@, items@, items@.len() as int) {
            Err(e) => r matches Err(x) && x@ == e,
            Ok(t) => r matches Ok((ls, changed)) && links_view(ls@) == t.links && changed == t.changed,
        },
{
    let mut links: Vec<PartLink> = Vec::new();
    let mut changed = false;
    let mut k: usize = 0;
    while k < stock.len()
        invariant
            k <= stock@.len(),
            links_view(links@) == stock@.take(k as int).map_values(|p: InventoryPart| marked(p)),
            changed == exists|i: int|
                0 <= i < k && linked(marked(stock@[i])) && !(#[trigger] stock@[i]).library_missing,
        decreases stock@.len() - k,
    {
        let p = &stock[k];
        let ghost before = links_view(links@);
        let l = marked_link(p);
        if (p.library_lcsc.is_some() || p.library_source_file.is_some()) && !p.library_missing {
            changed = true;
        }
        links.push(l);
        assert(links_view(links@) =~= before.push(marked(stock@[k as int])));
        assert(stock@.take(k + 1).map_values(|p: InventoryPart| marked(p)) =~= stock@.take(k as int).map_values(
            |p: InventoryPart| marked(p),
        ).push(marked(stock@[k as int])));
        k = k + 1;
    }
    assert(stock@.take(stock@.len() as int) =~= stock@);
    let mut seen: Vec<String> = Vec::new();
    let mut n: usize = 0;
    while n < items.len()
        invariant
            n <= items@.len(),
            sync_run(stock@, items@, n as int) matches Ok(t) && links_view(links@) == t.links && changed
                == t.changed && seen@.map_values(|s: String| s@) == t.seen,
        decreases items@.len() - n,
    {
        let item = &items[n];
        let ghost t = sync_run(stock@, items@, n as int)->Ok_0;
        let id = match library_item_identity(item) {
            Some(id) => id,
            None => {
                n = n + 1;
                continue;
            },
        };
        if seen_contains(&seen, id.as_str()) {
            n = n + 1;
            continue;
        }
        let value = match required_text(item.value.as_str(), "Library value") {
            Ok(v) => v,
            Err(e) => {
                proof {
                    assert(sync_run(stock@, items@, n as int + 1) == Err::<SyncRun, Seq<char>>(e@));
                    lemma_sync_error_stays(stock@, items@, n as int + 1, items@.len() as int);
                }
                return Err(e);
            },
        };
        let symbol = match required_text(item.symbol_name.as_str(), "Library symbol") {
            Ok(v) => v,
            Err(e) => {
                proof {
                    assert(sync_run(stock@, items@, n as int + 1) == Err::<SyncRun, Seq<char>>(e@));
                    lemma_sync_error_stays(stock@, items@, n as int + 1, items@.len() as int);
                }
                return Err(e);
            },
        };
        let ghost sv = seen@.map_values(|s: String| s@);
        seen.push(id);
        assert(seen@.map_values(|s: String| s@) =~= sv.push(library_identity(*item)->Some_0));
        let lcsc = normalize_optional(Some(item.lcsc_part.clone()));
        assert(opt_string_view(lcsc) == number_key(item.lcsc_part@));
        let found = find_follower(&links, &lcsc, item.source_file.as_str(), symbol.as_str());
        if let Some(j) = found {
            let current = StoredLink {
                symbol_name: copy_opt_s(&links[j].library_symbol_name),
                source_file: copy_opt_s(&links[j].library_source_file),
                supplier_part_number: copy_opt_s(&links[j].supplier_part_number),
                name: links[j].name.clone(),
                package: links[j].package.clone(),
                missing: links[j].library_missing,
            };
            let (differs, package) = sync_update(&current, item, value.as_str(), symbol.as_str());
            assert(links_view(links@)[j as int] == link_view(links@[j as int]));
            assert(differs == link_differs(links_view(links@)[j as int], *item, value@, symbol@));
            if differs {
                let ghost vs = links_view(links@);
                let mut m: usize = 0;
                while m < links.len()
                    invariant
                        m <= links@.len(),
                        links@.len() == vs.len(),
                        opt_string_view(lcsc) == number_key(item.lcsc_part@),
                        forall|i: int| 0 <= i < m ==> #[trigger] links_view(links@)[i] == brought_up(vs, *item, value@, symbol@, package@)[i],
                        forall|i: int| m <= i < vs.len() ==> #[trigger] links_view(links@)[i] == vs[i],
                    decreases links@.len() - m,
                {
                    let ghost before = links_view(links@);
                    assert(before[m as int] == vs[m as int]);
                    if link_follows(&links[m], &lcsc, item.source_file.as_str(), symbol.as_str()) {
                        let nl = PartLink {
                            id: links[m].id.clone(),
                            library_lcsc: copy_opt_s(&lcsc),
                            library_symbol_name: Some(symbol.clone()),
                            library_source_file: Some(item.source_file.clone()),
                            supplier_part_number: copy_opt_s(&lcsc),
                            name: value.clone(),
                            package: package.clone(),
                            library_missing: false,
                        };
                        links.set(m, nl);
                        assert(links_view(links@) =~= before.update(m as int, brought_up(vs, *item, value@, symbol@, package@)[m as int]));
                    } else {
                        assert(brought_up(vs, *item, value@, symbol@, package@)[m as int] == vs[m as int]);
                    }
                    m = m + 1;
                }
                assert(links_view(links@) =~= brought_up(vs, *item, value@, symbol@, package@));
                changed = true;
            }
        }
        n = n + 1;
    }
    Ok((links, changed))
}

proof fn lemma_sync_error_stays(stock: Seq<InventoryPart>, items: Seq<InventoryLibraryPart>, m: int, k: int)
    requires
        0 <= m <= k,
        sync_run(stock, items, m) is Err,
    ensures
        sync_run(stock, items, k) == sync_run(stock, items, m),
    decreases k - m,
{
    if k > m {
        lemma_sync_error_stays(stock, items, m, k - 1);
    }
}
} // verus!
