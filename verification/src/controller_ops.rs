//! What the desktop controller decides between reading and writing files: the export run
//! it asks for, how chosen component numbers join the matched queue, the text of the files
//! it saves, and which library part an edited stock part is bound to.
use vstd::prelude::*;
use crate::controller::{LcscPartCollectionSummary, normalize_direct_lcsc_parts, summary_of};
use crate::export::ExportRequest;
use crate::imported_symbols::ImportedSymbol;
use crate::inventory::{InventoryLibraryPart, InventoryPartInput, eq_ignore_ascii_case};
use crate::monitor::{MonitorState, ids_of, logged, merge_additions};
use crate::text::{chars_of, decimal, extend_str, lower_seq, string_from, trim, trim_str};

verus! {

pub open spec fn strings_view(v: Seq<String>) -> Seq<Seq<char>> {
    v.map_values(|s: String| s@)
}

pub open spec fn opt_view(o: Option<String>) -> Option<Seq<char>> {
    match o {
        Some(s) => Some(s@),
        None => None,
    }
}

fn push_num(v: &mut Vec<char>, n: usize)
    ensures
        final(v)@ == old(v)@ + decimal(n as nat),
{
    let d = crate::text::decimal_string(n as u64);
    extend_str(v, d.as_str());
}

fn copy_opt(o: &Option<String>) -> (r: Option<String>)
    ensures
        opt_view(r) == opt_view(*o),
{
    match o {
        Some(s) => Some(s.clone()),
        None => None,
    }
}

/// The export run the controller asks for the ids `ids`: the state's settings; refused
/// when there is no id or no asset kind is selected.
pub fn build_export_request(state: &MonitorState, ids: Vec<String>) -> (r: Result<ExportRequest, String>)
    ensures
        ids@.len() == 0 ==> r is Err && r->Err_0@ == "No matched results to export"@,
        ids@.len() > 0 && !(state.export_symbol || state.export_footprint || state.export_model_3d)
            ==> r is Err && r->Err_0@ == "Select at least one export type"@,
        r matches Ok(q) ==> {
            &&& ids@.len() > 0 && (state.export_symbol || state.export_footprint || state.export_model_3d)
            &&& strings_view(q.ids@) == strings_view(ids@)
            &&& q.output_path@ == state.export_output_path@
            &&& q.show_terminal == state.export_show_terminal && q.parallel == state.export_parallel
            &&& q.path_mode == state.export_path_mode
            &&& q.export_symbol == state.export_symbol && q.export_footprint == state.export_footprint
            &&& q.export_model_3d == state.export_model_3d
            &&& q.overwrite_symbol == state.export_overwrite_symbol
            &&& q.overwrite_footprint == state.export_overwrite_footprint
            &&& q.overwrite_model_3d == state.export_overwrite_model_3d
            &&& opt_view(q.symbol_fill_color) == opt_view(state.export_symbol_fill_color)
        },
        ids@.len() > 0 && (state.export_symbol || state.export_footprint || state.export_model_3d) ==> r is Ok,
{
    if ids.len() == 0 {
        return Err("No matched results to export".to_owned());
    }
    if !state.export_has_export_targets() {
        return Err("Select at least one export type".to_owned());
    }
    Ok(
        ExportRequest {
            ids,
            output_path: state.export_output_path.clone(),
            show_terminal: state.export_show_terminal,
            parallel: state.export_parallel,
            path_mode: state.export_path_mode,
            export_symbol: state.export_symbol,
            export_footprint: state.export_footprint,
            export_model_3d: state.export_model_3d,
            overwrite_symbol: state.export_overwrite_symbol,
            overwrite_footprint: state.export_overwrite_footprint,
            overwrite_model_3d: state.export_overwrite_model_3d,
            symbol_fill_color: copy_opt(&state.export_symbol_fill_color),
        },
    )
}

/// The report after queueing chosen numbers.
pub open spec fn queued_message(
    added: nat,
    unique: nat,
    duplicates: nat,
    invalid: nat,
    already: nat,
    queued: nat,
) -> Seq<char> {
    "Queued "@ + decimal(added) + " LCSC part(s) ("@ + decimal(unique) + " unique part(s), "@ + decimal(
        duplicates,
    ) + " duplicate input(s), "@ + decimal(invalid) + " invalid input(s), "@ + decimal(already)
        + " already queued, matched queue now has "@ + decimal(queued) + " item(s))"@
}

/// The numbers recognised among chosen entries (see `normalize_direct_lcsc_parts`).
pub open spec fn chosen_found(parts: Seq<String>) -> Seq<Seq<char>> {
    crate::controller::direct_found(strings_view(parts), parts.len() as int)
}

/// The state after merging `unique` into the matched queue at `timestamp` and logging
/// `note`: the additions in front, the note on top of the log, nothing else changed.
pub open spec fn queued_state(old_state: MonitorState, new_state: MonitorState, unique: Seq<Seq<char>>, timestamp: Seq<char>, note: Seq<char>) -> bool {
    let add = merge_additions(ids_of(old_state.matched_view()), unique);
    &&& new_state == (MonitorState {
        matched: new_state.matched,
        match_debug_log: new_state.match_debug_log,
        ..old_state
    })
    &&& new_state.matched_view() == add.map_values(|x: Seq<char>| (timestamp, x)) + old_state.matched_view()
    &&& new_state.log() == logged(old_state.log(), note)
}

/// Puts chosen component numbers at the front of the matched queue (those not queued yet,
/// once each, stamped `timestamp`), notes it in the log, and says what happened; with no
/// valid number nothing changes.
pub fn queue_lcsc_parts(state: &mut MonitorState, parts: Vec<String>, timestamp: String) -> (r: String)
    ensures
        ({
            let found = chosen_found(parts@);
            let unique = crate::monitor::distinct_in_order(found);
            let invalid = crate::controller::direct_invalid(strings_view(parts@), parts@.len() as int);
            let add = merge_additions(ids_of(old(state).matched_view()), unique);
            if unique.len() == 0 {
                *final(state) == *old(state) && r@ == "No valid LCSC parts to queue"@
            } else {
                &&& queued_state(
                    *old(state),
                    *final(state),
                    unique,
                    timestamp@,
                    "Queued "@ + decimal(add.len()) + " direct LCSC part(s)"@,
                )
                &&& r@ == queued_message(
                    add.len(),
                    unique.len(),
                    (found.len() - unique.len()) as nat,
                    invalid,
                    (unique.len() - add.len()) as nat,
                    final(state).matched@.len(),
                )
            }
        }),
{
    let normalized = normalize_direct_lcsc_parts(parts);
    if normalized.normalized_parts.len() == 0 {
        return "No valid LCSC parts to queue".to_owned();
    }
    let unique = normalized.normalized_parts.len();
    let ids = crate::runner::copy_strings(&normalized.normalized_parts);
    let merge = state.merge_matched_ids(ids, timestamp);
    let mut note: Vec<char> = Vec::new();
    extend_str(&mut note, "Queued ");
    push_num(&mut note, merge.added);
    extend_str(&mut note, " direct LCSC part(s)");
    state.add_debug_log(string_from(note.as_slice()));
    let mut v: Vec<char> = Vec::new();
    extend_str(&mut v, "Queued ");
    push_num(&mut v, merge.added);
    extend_str(&mut v, " LCSC part(s) (");
    push_num(&mut v, unique);
    extend_str(&mut v, " unique part(s), ");
    push_num(&mut v, normalized.duplicate_part_count);
    extend_str(&mut v, " duplicate input(s), ");
    push_num(&mut v, normalized.invalid_entry_count);
    extend_str(&mut v, " invalid input(s), ");
    push_num(&mut v, merge.already_present);
    extend_str(&mut v, " already queued, matched queue now has ");
    push_num(&mut v, state.matched.len());
    extend_str(&mut v, " item(s))");
    string_from(v.as_slice())
}

/// The report after importing a parts file named `source` into the matched queue.
pub open spec fn imported_message(
    added: nat,
    source: Seq<char>,
    found: nat,
    unique: nat,
    duplicates: nat,
    invalid: nat,
    already: nat,
    queued: nat,
) -> Seq<char> {
    "Imported "@ + decimal(added) + " LCSC part(s) from "@ + source + " ("@ + decimal(found)
        + " matched part occurrence(s), "@ + decimal(unique) + " unique part(s), "@ + decimal(duplicates)
        + " duplicate occurrence(s) in file, "@ + decimal(invalid) + " invalid line(s), "@ + decimal(
        already,
    ) + " already queued, matched queue now has "@ + decimal(queued) + " item(s))"@
}

/// Puts the numbers read from the parts file `source` (see `parse_imported_parts_text`)
/// at the front of the matched queue, notes it in the log, and says what happened; a file
/// without numbers changes nothing.
pub fn import_parts_into_queue(state: &mut MonitorState, parsed: &LcscPartCollectionSummary, source: &str, timestamp: String) -> (r:
    String)
    ensures
        ({
            let unique = strings_view(parsed.normalized_parts@);
            let add = merge_additions(ids_of(old(state).matched_view()), unique);
            if unique.len() == 0 {
                *final(state) == *old(state) && r@ == "No LCSC parts found in "@ + source@
            } else {
                &&& queued_state(
                    *old(state),
                    *final(state),
                    unique,
                    timestamp@,
                    "Imported "@ + decimal(add.len()) + " new matched parts from "@ + source@,
                )
                &&& r@ == imported_message(
                    add.len(),
                    source@,
                    parsed.matched_part_count as nat,
                    unique.len(),
                    parsed.duplicate_part_count as nat,
                    parsed.invalid_entry_count as nat,
                    (unique.len() - add.len()) as nat,
                    final(state).matched@.len(),
                )
            }
        }),
{
    if parsed.normalized_parts.len() == 0 {
        let mut v: Vec<char> = Vec::new();
        extend_str(&mut v, "No LCSC parts found in ");
        extend_str(&mut v, source);
        return string_from(v.as_slice());
    }
    let ids = crate::runner::copy_strings(&parsed.normalized_parts);
    let merge = state.merge_matched_ids(ids, timestamp);
    let mut note: Vec<char> = Vec::new();
    extend_str(&mut note, "Imported ");
    push_num(&mut note, merge.added);
    extend_str(&mut note, " new matched parts from ");
    extend_str(&mut note, source);
    state.add_debug_log(string_from(note.as_slice()));
    let mut v: Vec<char> = Vec::new();
    extend_str(&mut v, "Imported ");
    push_num(&mut v, merge.added);
    extend_str(&mut v, " LCSC part(s) from ");
    extend_str(&mut v, source);
    extend_str(&mut v, " (");
    push_num(&mut v, parsed.matched_part_count);
    extend_str(&mut v, " matched part occurrence(s), ");
    push_num(&mut v, parsed.normalized_parts.len());
    extend_str(&mut v, " unique part(s), ");
    push_num(&mut v, parsed.duplicate_part_count);
    extend_str(&mut v, " duplicate occurrence(s) in file, ");
    push_num(&mut v, parsed.invalid_entry_count);
    extend_str(&mut v, " invalid line(s), ");
    push_num(&mut v, merge.already_present);
    extend_str(&mut v, " already queued, matched queue now has ");
    push_num(&mut v, state.matched.len());
    extend_str(&mut v, " item(s))");
    string_from(v.as_slice())
}

/// Each entry of `entries` as a line: `[time] text` for the history, or the text alone.
pub open spec fn entry_lines(entries: Seq<(Seq<char>, Seq<char>)>, with_time: bool) -> Seq<char>
    decreases entries.len(),
{
    if entries.len() == 0 {
        Seq::empty()
    } else {
        let e = entries.last();
        entry_lines(entries.drop_last(), with_time) + (if with_time {
            seq!['['] + e.0 + seq![']', ' '] + e.1
        } else {
            e.1
        }).push('\n')
    }
}

pub open spec fn pairs_view(v: Seq<(String, String)>) -> Seq<(Seq<char>, Seq<char>)> {
    v.map_values(|p: (String, String)| (p.0@, p.1@))
}

/// The text of a saved history (`with_time`) or matched list (see `entry_lines`).
pub fn entries_file_text(entries: &Vec<(String, String)>, with_time: bool) -> (r: String)
    ensures
        r@ == entry_lines(pairs_view(entries@), with_time),
{
    let ghost ev = pairs_view(entries@);
    let mut v: Vec<char> = Vec::new();
    let mut k: usize = 0;
    while k < entries.len()
        invariant
            k <= entries.len(),
            ev == pairs_view(entries@),
            v@ == entry_lines(ev.take(k as int), with_time),
        decreases entries.len() - k,
    {
        let ghost before = v@;
        if with_time {
            v.push('[');
            extend_str(&mut v, entries[k].0.as_str());
            v.push(']');
            v.push(' ');
        }
        extend_str(&mut v, entries[k].1.as_str());
        v.push('\n');
        assert(ev.take(k + 1).drop_last() =~= ev.take(k as int));
        assert(ev[k as int] == (entries@[k as int].0@, entries@[k as int].1@));
        assert(v@ =~= entry_lines(ev.take(k + 1), with_time));
        k = k + 1;
    }
    assert(ev.take(entries.len() as int) =~= ev);
    string_from(v.as_slice())
}

/// Each part number on a line of its own.
pub open spec fn part_lines(parts: Seq<Seq<char>>) -> Seq<char>
    decreases parts.len(),
{
    if parts.len() == 0 {
        Seq::empty()
    } else {
        part_lines(parts.drop_last()) + parts.last().push('\n')
    }
}

/// The text of a saved parts file (see `part_lines`).
pub fn parts_file_text(parts: &Vec<String>) -> (r: String)
    ensures
        r@ == part_lines(strings_view(parts@)),
{
    let ghost pv = strings_view(parts@);
    let mut v: Vec<char> = Vec::new();
    let mut k: usize = 0;
    while k < parts.len()
        invariant
            k <= parts.len(),
            pv == strings_view(parts@),
            v@ == part_lines(pv.take(k as int)),
        decreases parts.len() - k,
    {
        extend_str(&mut v, parts[k].as_str());
        v.push('\n');
        assert(pv.take(k + 1).drop_last() =~= pv.take(k as int));
        k = k + 1;
    }
    assert(pv.take(parts.len() as int) =~= pv);
    string_from(v.as_slice())
}

/// The stock's view of a library item: its key, number, value, symbol, package and file,
/// whether it has a 3D model, and where it comes from.
pub open spec fn library_part_of_spec(item: ImportedSymbol, p: InventoryLibraryPart) -> bool {
    &&& p.library_key@ == item.library_key@ && p.lcsc_part@ == item.lcsc_part@
    &&& p.value@ == item.value@ && p.symbol_name@ == item.symbol_name@
    &&& p.package@ == item.package@ && p.source_file@ == item.source_file@
    &&& p.has_model == (item.model_available || item.models@.len() > 0)
    &&& p.source_kind@ == item.source_kind@ && p.editable == item.editable
}

/// The stock's view of a library item (see `library_part_of_spec`).
pub fn library_part_of(item: &ImportedSymbol) -> (r: InventoryLibraryPart)
    ensures
        library_part_of_spec(*item, r),
{
    InventoryLibraryPart {
        library_key: item.library_key.clone(),
        lcsc_part: item.lcsc_part.clone(),
        value: item.value.clone(),
        symbol_name: item.symbol_name.clone(),
        package: item.package.clone(),
        source_file: item.source_file.clone(),
        has_model: item.model_available || item.models.len() > 0,
        source_kind: item.source_kind.clone(),
        editable: item.editable,
    }
}

/// A library part by value: key, number, value, symbol, package, file, model, kind,
/// editability.
pub type LibPartView = (Seq<char>, Seq<char>, Seq<char>, Seq<char>, Seq<char>, Seq<char>, bool, Seq<char>, bool);

pub open spec fn lib_view(p: InventoryLibraryPart) -> LibPartView {
    (
        p.library_key@,
        p.lcsc_part@,
        p.value@,
        p.symbol_name@,
        p.package@,
        p.source_file@,
        p.has_model,
        p.source_kind@,
        p.editable,
    )
}

pub open spec fn lib_views(v: Seq<InventoryLibraryPart>) -> Seq<LibPartView> {
    v.map_values(|p: InventoryLibraryPart| lib_view(p))
}

/// Whether a library part (by value) carries one of the matched numbers, ignoring ASCII
/// case.
pub open spec fn matched_part(ids: Seq<Seq<char>>, p: LibPartView) -> bool {
    exists|i: int| 0 <= i < ids.len() && lower_seq(#[trigger] ids[i]) == lower_seq(p.1)
}

fn carries_any(ids: &Vec<String>, p: &InventoryLibraryPart) -> (r: bool)
    ensures
        r == matched_part(strings_view(ids@), lib_view(*p)),
{
    let ghost iv = strings_view(ids@);
    let mut k: usize = 0;
    while k < ids.len()
        invariant
            k <= ids.len(),
            iv == strings_view(ids@),
            forall|j: int| 0 <= j < k ==> lower_seq(#[trigger] iv[j]) != lower_seq(p.lcsc_part@),
        decreases ids.len() - k,
    {
        if eq_ignore_ascii_case(ids[k].as_str(), p.lcsc_part.as_str()) {
            assert(lower_seq(iv[k as int]) == lower_seq(p.lcsc_part@));
            return true;
        }
        k = k + 1;
    }
    false
}

fn copy_part(p: &InventoryLibraryPart) -> (r: InventoryLibraryPart)
    ensures
        lib_view(r) == lib_view(*p),
{
    InventoryLibraryPart {
        library_key: p.library_key.clone(),
        lcsc_part: p.lcsc_part.clone(),
        value: p.value.clone(),
        symbol_name: p.symbol_name.clone(),
        package: p.package.clone(),
        source_file: p.source_file.clone(),
        has_model: p.has_model,
        source_kind: p.source_kind.clone(),
        editable: p.editable,
    }
}

/// The library parts that carry one of the matched numbers, in order.
pub fn matched_library_parts(ids: &Vec<String>, parts: &Vec<InventoryLibraryPart>) -> (r: Vec<
    InventoryLibraryPart,
>)
    ensures
        lib_views(r@) == lib_views(parts@).filter(|p: LibPartView| matched_part(strings_view(ids@), p)),
{
    let ghost pv = lib_views(parts@);
    let mut out: Vec<InventoryLibraryPart> = Vec::new();
    let mut k: usize = 0;
    while k < parts.len()
        invariant
            k <= parts.len(),
            pv == lib_views(parts@),
            lib_views(out@) == pv.take(k as int).filter(|p: LibPartView| matched_part(strings_view(ids@), p)),
        decreases parts.len() - k,
    {
        proof {
            reveal(Seq::filter);
            assert(pv.take(k + 1).drop_last() =~= pv.take(k as int));
        }
        let ghost before = lib_views(out@);
        if carries_any(ids, &parts[k]) {
            out.push(copy_part(&parts[k]));
            assert(lib_views(out@) =~= before.push(pv[k as int]));
        }
        k = k + 1;
    }
    assert(pv.take(parts.len() as int) =~= pv);
    out
}

/// Whether an edited part names a library part: a part number, or a file and a symbol.
pub open spec fn has_library_selection(input: InventoryPartInput) -> bool {
    ||| (input.library_lcsc matches Some(l) && trim(l@).len() > 0)
    ||| ((input.library_source_file matches Some(f) && trim(f@).len() > 0) && (
    input.library_symbol_name matches Some(n) && trim(n@).len() > 0))
}

/// Whether library part `p` is the one an edited part names: the same part number
/// (ignoring ASCII case), or the same file and symbol.
pub open spec fn selects(input: InventoryPartInput, p: LibPartView) -> bool {
    ||| (input.library_lcsc matches Some(l) && trim(l@).len() > 0 && p.1.len() > 0 && lower_seq(p.1)
        == lower_seq(l@))
    ||| (opt_view(input.library_source_file) == Some(p.5) && opt_view(input.library_symbol_name)
        == Some(p.3))
}

/// The first library part an edited part names.
pub open spec fn selected_part(input: InventoryPartInput, parts: Seq<LibPartView>, i: int) -> Option<int>
    decreases parts.len() - i,
{
    if i < 0 || i >= parts.len() {
        None
    } else if selects(input, parts[i]) {
        Some(i)
    } else {
        selected_part(input, parts, i + 1)
    }
}

/// `out` is the edited part bound to library part `p`: its number (when it has one) as
/// library and supplier number, its symbol and file, its value as name and its package.
pub open spec fn bound_to(input: InventoryPartInput, p: LibPartView, out: InventoryPartInput) -> bool {
    let lcsc = if p.1.len() > 0 {
        Some(p.1)
    } else {
        None
    };
    &&& opt_view(out.library_lcsc) == lcsc && opt_view(out.supplier_part_number) == lcsc
    &&& opt_view(out.library_symbol_name) == Some(p.3)
    &&& opt_view(out.library_source_file) == Some(p.5)
    &&& out.name@ == p.2 && out.package@ == p.4
    &&& out.id == input.id && out.note == input.note && out.locations == input.locations
}

fn opt_nonblank(o: &Option<String>) -> (r: bool)
    ensures
        r == (o matches Some(s) && trim(s@).len() > 0),
{
    match o {
        Some(s) => !trim_str(s.as_str()).as_str().is_empty(),
        None => false,
    }
}

fn opt_is(o: &Option<String>, v: &String) -> (r: bool)
    ensures
        r == (opt_view(*o) == Some(v@)),
{
    match o {
        Some(s) => crate::text::str_eq(s.as_str(), v.as_str()),
        None => false,
    }
}

/// Binds an edited part to the library part it names (see `bound_to`); a part that names
/// none is kept as it is, and one whose library part is gone is refused.
pub fn resolve_library_selection(input: InventoryPartInput, parts: &Vec<InventoryLibraryPart>) -> (r: Result<
    InventoryPartInput,
    String,
>)
    ensures
        !has_library_selection(input) ==> r == Ok::<InventoryPartInput, String>(input),
        has_library_selection(input) ==> match selected_part(input, lib_views(parts@), 0) {
            Some(i) => r is Ok && bound_to(input, lib_views(parts@)[i], r->Ok_0),
            None => r is Err && r->Err_0@ == "Selected component is no longer in the library"@,
        },
{
    let named = opt_nonblank(&input.library_lcsc) || (opt_nonblank(&input.library_source_file)
        && opt_nonblank(&input.library_symbol_name));
    if !named {
        return Ok(input);
    }
    let ghost pv = lib_views(parts@);
    let mut k: usize = 0;
    while k < parts.len()
        invariant
            k <= parts.len(),
            pv == lib_views(parts@),
            has_library_selection(input),
            selected_part(input, pv, 0) == selected_part(input, pv, k as int),
        decreases parts.len() - k,
    {
        let p = &parts[k];
        let by_number = match &input.library_lcsc {
            Some(l) => !trim_str(l.as_str()).as_str().is_empty() && !p.lcsc_part.as_str().is_empty()
                && eq_ignore_ascii_case(p.lcsc_part.as_str(), l.as_str()),
            None => false,
        };
        let by_symbol = opt_is(&input.library_source_file, &p.source_file) && opt_is(
            &input.library_symbol_name,
            &p.symbol_name,
        );
        if by_number || by_symbol {
            let lcsc = if p.lcsc_part.as_str().is_empty() {
                None
            } else {
                Some(p.lcsc_part.clone())
            };
            return Ok(
                InventoryPartInput {
                    id: input.id,
                    library_lcsc: copy_opt(&lcsc),
                    library_symbol_name: Some(p.symbol_name.clone()),
                    library_source_file: Some(p.source_file.clone()),
                    supplier_part_number: lcsc,
                    name: p.value.clone(),
                    package: p.package.clone(),
                    note: input.note,
                    locations: input.locations,
                },
            );
        }
        k = k + 1;
    }
    Err("Selected component is no longer in the library".to_owned())
}

/// Names in order, each no greater than the next (`Vec::sort` on strings).
pub open spec fn nondecreasing(v: Seq<Seq<char>>) -> bool {
    forall|i: int, j: int|
        0 <= i < j < v.len() ==> !crate::text::seq_lt(#[trigger] v[j], #[trigger] v[i])
}

/// Sorts strings in `str` order, keeping the order of equal ones.
pub fn sort_strings(v: Vec<String>) -> (r: Vec<String>)
    ensures
        nondecreasing(strings_view(r@)),
        strings_view(r@).to_multiset() == strings_view(v@).to_multiset(),
{
    let ghost vv = strings_view(v@);
    let mut out: Vec<String> = Vec::new();
    let mut k: usize = 0;
    assert(vv.take(0) =~= Seq::<Seq<char>>::empty());
    assert(strings_view(out@) =~= Seq::<Seq<char>>::empty());
    while k < v.len()
        invariant
            k <= v.len(),
            vv == strings_view(v@),
            nondecreasing(strings_view(out@)),
            strings_view(out@).to_multiset() == vv.take(k as int).to_multiset(),
        decreases v.len() - k,
    {
        let x = &v[k];
        let ghost ov = strings_view(out@);
        let mut p: usize = 0;
        while p < out.len() && !crate::text::str_lt(x.as_str(), out[p].as_str())
            invariant
                p <= out.len(),
                ov == strings_view(out@),
                forall|i: int| 0 <= i < p ==> !crate::text::seq_lt(x@, #[trigger] ov[i]),
            decreases out.len() - p,
        {
            p = p + 1;
        }
        out.insert(p, x.clone());
        let ghost nv = strings_view(out@);
        assert(nv =~= ov.insert(p as int, x@));
        assert forall|i: int, j: int| 0 <= i < j < nv.len() implies !crate::text::seq_lt(
            #[trigger] nv[j],
            #[trigger] nv[i],
        ) by {
            if j < p {
            } else if i < p && j == p {
            } else if i < p && j > p {
                assert(nv[j] == ov[j - 1]);
                assert(!crate::text::seq_lt(x@, ov[i]));
                if crate::text::seq_lt(ov[j - 1], ov[i]) {
                    if j - 1 > i {
                    }
                }
            } else if i == p && j > p {
                assert(nv[j] == ov[j - 1]);
                assert(crate::text::seq_lt(x@, ov[p as int]));
                crate::checkpoint::lemma_seq_lt_total(ov[p as int], ov[j - 1]);
                if crate::text::seq_lt(ov[p as int], ov[j - 1]) {
                    crate::checkpoint::lemma_seq_lt_transitive(x@, ov[p as int], ov[j - 1]);
                }
                crate::checkpoint::lemma_seq_lt_asym(x@, ov[j - 1]);
            } else {
                assert(nv[i] == ov[i - 1] && nv[j] == ov[j - 1]);
            }
        }
        assert(vv[k as int] == x@);
        assert(vv.take(k + 1) =~= vv.take(k as int).push(vv[k as int]));
        proof {
            vstd::seq_lib::to_multiset_insert(ov, p as int, x@);
            vstd::seq_lib::to_multiset_build(vv.take(k as int), x@);
        }
        k = k + 1;
    }
    assert(vv.take(v.len() as int) =~= vv);
    out
}

/// The configured library folders after adding `value`: unchanged when it is listed,
/// else with it added and the list sorted.
pub fn add_library_path(paths: Vec<String>, value: String) -> (r: Vec<String>)
    ensures
        strings_view(paths@).contains(value@) ==> strings_view(r@) == strings_view(paths@),
        !strings_view(paths@).contains(value@) ==> nondecreasing(strings_view(r@))
            && strings_view(r@).to_multiset() == strings_view(paths@).push(value@).to_multiset(),
{
    if crate::monitor::contains_string(&paths, value.as_str()) {
        return paths;
    }
    let mut all = paths;
    let ghost before = strings_view(all@);
    let ghost vv = value@;
    all.push(value);
    assert(strings_view(all@) =~= before.push(vv));
    sort_strings(all)
}

/// The configured library folders without `path`.
pub fn remove_library_path(paths: Vec<String>, path: &str) -> (r: Vec<String>)
    ensures
        strings_view(r@) == strings_view(paths@).filter(|p: Seq<char>| p != path@),
{
    let ghost pv = strings_view(paths@);
    let mut out: Vec<String> = Vec::new();
    let mut k: usize = 0;
    while k < paths.len()
        invariant
            k <= paths.len(),
            pv == strings_view(paths@),
            strings_view(out@) == pv.take(k as int).filter(|p: Seq<char>| p != path@),
        decreases paths.len() - k,
    {
        proof {
            reveal(Seq::filter);
            assert(pv.take(k + 1).drop_last() =~= pv.take(k as int));
        }
        let ghost before = strings_view(out@);
        if !crate::text::str_eq(paths[k].as_str(), path) {
            out.push(paths[k].clone());
            assert(strings_view(out@) =~= before.push(pv[k as int]));
        }
        k = k + 1;
    }
    assert(pv.take(paths.len() as int) =~= pv);
    out
}

} // verus!
