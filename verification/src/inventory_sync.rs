//! The decisions of keeping the stock in step with the symbol libraries: what an edited
//! part is saved as, which library items name a part and how, and when a part must be
//! brought up to date with its library item.
use vstd::prelude::*;
use crate::inventory::{
    InventoryLibraryPart, InventoryLocation, InventoryPartInput, LocView, loc_view,
    normalize_locations, normalize_optional, normalize_text, normalized_locations, required_text,
    trimmed_text, unicode_uppercase,
};
use crate::pattern::opt_string_view;
use crate::text::{extend_str, string_from, trim, trim_str};

verus! {

/// A part number trimmed and upper-cased, `None` when blank.
pub open spec fn number_key(v: Seq<char>) -> Option<Seq<char>> {
    if unicode_uppercase(trim(v)).len() == 0 {
        None
    } else {
        Some(unicode_uppercase(trim(v)))
    }
}

/// A part as it is stored after an edit.
#[derive(Debug, Clone, PartialEq, Eq)]
pub struct PreparedPart {
    pub library_lcsc: Option<String>,
    pub library_symbol_name: Option<String>,
    pub library_source_file: Option<String>,
    pub supplier_part_number: Option<String>,
    pub name: String,
    pub package: String,
    pub note: String,
    pub locations: Vec<InventoryLocation>,
}

pub open spec fn locs_view(v: Seq<InventoryLocation>) -> Seq<LocView> {
    v.map_values(|l: InventoryLocation| loc_view(l))
}

/// Why an edited part is refused: a blank name, a blank package for a part not bound to a
/// library part, or locations that cannot be stored; checked in that order.
pub open spec fn part_error(input: InventoryPartInput) -> Option<Seq<char>> {
    if trim(input.name@).len() == 0 {
        Some("Name"@ + " is required"@)
    } else if number_key_opt(opt_string_view(input.library_lcsc)) is None && trim(input.package@).len() == 0 {
        Some("Package"@ + " is required"@)
    } else {
        match normalized_locations(locs_view(input.locations@)) {
            Err(m) => Some(m),
            Ok(_) => None,
        }
    }
}

pub open spec fn number_key_opt(v: Option<Seq<char>>) -> Option<Seq<char>> {
    match v {
        Some(s) => number_key(s),
        None => None,
    }
}

/// `p` is what the edited part `input` is stored as: its numbers as keys, its texts
/// trimmed, and its locations normalised.
pub open spec fn prepared_from(input: InventoryPartInput, p: PreparedPart) -> bool {
    &&& opt_string_view(p.library_lcsc) == number_key_opt(opt_string_view(input.library_lcsc))
    &&& opt_string_view(p.library_symbol_name) == trimmed_text(opt_string_view(input.library_symbol_name))
    &&& opt_string_view(p.library_source_file) == trimmed_text(opt_string_view(input.library_source_file))
    &&& opt_string_view(p.supplier_part_number) == number_key_opt(opt_string_view(input.supplier_part_number))
    &&& p.name@ == trim(input.name@)
    &&& p.package@ == trim(input.package@)
    &&& p.note@ == trim(input.note@)
    &&& normalized_locations(locs_view(input.locations@)) == Ok::<Seq<LocView>, Seq<char>>(
        locs_view(p.locations@),
    )
}

fn copy_opt(o: &Option<String>) -> (r: Option<String>)
    ensures
        opt_string_view(r) == opt_string_view(*o),
{
    match o {
        Some(s) => Some(s.clone()),
        None => None,
    }
}

/// What an edited part is stored as, or why it is refused (see `part_error`).
pub fn prepare_part(input: InventoryPartInput) -> (r: Result<PreparedPart, String>)
    ensures
        match part_error(input) {
            Some(m) => r is Err && r->Err_0@ == m,
            None => r is Ok && prepared_from(input, r->Ok_0),
        },
{
    let library_lcsc = normalize_optional(copy_opt(&input.library_lcsc));
    let name = match required_text(input.name.as_str(), "Name") {
        Ok(n) => n,
        Err(m) => return Err(m),
    };
    let package = if library_lcsc.is_some() {
        trim_str(input.package.as_str())
    } else {
        match required_text(input.package.as_str(), "Package") {
            Ok(p) => p,
            Err(m) => return Err(m),
        }
    };
    let note = trim_str(input.note.as_str());
    let symbol = normalize_text(copy_opt(&input.library_symbol_name));
    let source = normalize_text(copy_opt(&input.library_source_file));
    let supplier = normalize_optional(copy_opt(&input.supplier_part_number));
    let locations = match normalize_locations(input.locations) {
        Ok(l) => l,
        Err(m) => return Err(m),
    };
    Ok(
        PreparedPart {
            library_lcsc,
            library_symbol_name: symbol,
            library_source_file: source,
            supplier_part_number: supplier,
            name,
            package,
            note,
            locations,
        },
    )
}

/// The refusal when a library part number is already held by another part.
pub fn duplicate_library_message(library_lcsc: &str) -> (r: String)
    ensures
        r@ == "Library component "@ + library_lcsc@ + " is already in inventory"@,
{
    let mut v: Vec<char> = Vec::new();
    extend_str(&mut v, "Library component ");
    extend_str(&mut v, library_lcsc);
    extend_str(&mut v, " is already in inventory");
    string_from(v.as_slice())
}

/// How a library item is told apart from the others: by its part number, else by its file
/// and symbol name; `None` when it has neither.
pub open spec fn library_identity(item: InventoryLibraryPart) -> Option<Seq<char>> {
    match number_key(item.lcsc_part@) {
        Some(l) => Some("lcsc:"@ + l),
        None => if trim(item.source_file@).len() > 0 && trim(item.symbol_name@).len() > 0 {
            Some("source:"@ + item.source_file@ + seq!['\u{1f}'] + item.symbol_name@)
        } else {
            None
        },
    }
}

/// The identity of a library item (see `library_identity`).
pub fn library_item_identity(item: &InventoryLibraryPart) -> (r: Option<String>)
    ensures
        opt_string_view(r) == library_identity(*item),
{
    match normalize_optional(Some(item.lcsc_part.clone())) {
        Some(l) => {
            let mut v: Vec<char> = Vec::new();
            extend_str(&mut v, "lcsc:");
            extend_str(&mut v, l.as_str());
            Some(string_from(v.as_slice()))
        },
        None => {
            if !trim_str(item.source_file.as_str()).as_str().is_empty() && !trim_str(
                item.symbol_name.as_str(),
            ).as_str().is_empty() {
                let mut v: Vec<char> = Vec::new();
                extend_str(&mut v, "source:");
                extend_str(&mut v, item.source_file.as_str());
                v.push('\u{1f}');
                extend_str(&mut v, item.symbol_name.as_str());
                Some(string_from(v.as_slice()))
            } else {
                None
            }
        },
    }
}

/// Whether a library item can become a part of its own: it has a part number, or a file
/// and a symbol name.
pub open spec fn importable(item: InventoryLibraryPart) -> bool {
    number_key(item.lcsc_part@) is Some || (trim(item.source_file@).len() > 0 && trim(
        item.symbol_name@,
    ).len() > 0)
}

/// Whether a library item can become a part (see `importable`).
pub fn is_importable(item: &InventoryLibraryPart) -> (r: bool)
    ensures
        r == importable(*item),
{
    normalize_optional(Some(item.lcsc_part.clone())).is_some() || (!trim_str(
        item.source_file.as_str(),
    ).as_str().is_empty() && !trim_str(item.symbol_name.as_str()).as_str().is_empty())
}

/// A part as stored, as far as it follows a library item.
#[derive(Debug, Clone, PartialEq, Eq)]
pub struct StoredLink {
    pub symbol_name: Option<String>,
    pub source_file: Option<String>,
    pub supplier_part_number: Option<String>,
    pub name: String,
    pub package: String,
    pub missing: bool,
}

/// The stored part's package after following the item: the item's when it has one.
pub open spec fn next_package(current: Seq<char>, item_package: Seq<char>) -> Seq<char> {
    if trim(item_package).len() == 0 {
        current
    } else {
        trim(item_package)
    }
}

/// Whether a stored part differs from the library item it follows (value `value` and
/// symbol `symbol` being the item's, trimmed): in symbol, file, part number, name or
/// package, or by being marked missing.
pub open spec fn needs_update(current: StoredLink, item: InventoryLibraryPart, value: Seq<char>, symbol: Seq<char>) -> bool {
    ||| opt_string_view(current.symbol_name) != Some(symbol)
    ||| opt_string_view(current.source_file) != Some(item.source_file@)
    ||| opt_string_view(current.supplier_part_number) != number_key(item.lcsc_part@)
    ||| current.name@ != value
    ||| next_package(current.package@, item.package@) != current.package@
    ||| current.missing
}

fn same_opt(a: &Option<String>, b: &Option<String>) -> (r: bool)
    ensures
        r == (opt_string_view(*a) == opt_string_view(*b)),
{
    match (a, b) {
        (Some(x), Some(y)) => crate::text::str_eq(x.as_str(), y.as_str()),
        (None, None) => true,
        _ => false,
    }
}

/// Whether a stored part must be brought up to date with its library item, and the
/// package it then gets (see `needs_update` and `next_package`).
pub fn sync_update(current: &StoredLink, item: &InventoryLibraryPart, value: &str, symbol: &str) -> (r: (
    bool,
    String,
))
    ensures
        r.0 == needs_update(*current, *item, value@, symbol@),
        r.1@ == next_package(current.package@, item.package@),
{
    let trimmed = trim_str(item.package.as_str());
    let package = if trimmed.as_str().is_empty() {
        current.package.clone()
    } else {
        trimmed
    };
    let lcsc = normalize_optional(Some(item.lcsc_part.clone()));
    let differs = !same_opt(&current.symbol_name, &Some(symbol.to_owned())) || !same_opt(
        &current.source_file,
        &Some(item.source_file.clone()),
    ) || !same_opt(&current.supplier_part_number, &lcsc) || !crate::text::str_eq(
        current.name.as_str(),
        value,
    ) || !crate::text::str_eq(package.as_str(), current.package.as_str()) || current.missing;
    (differs, package)
}

} // verus!
