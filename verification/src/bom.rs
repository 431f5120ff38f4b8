//! Reading a bill of materials from CSV text: the columns, the rows, and the supplier part
//! number each row names.
use vstd::prelude::*;
use crate::config::{all_digits, digits_value, sign_stripped, lemma_digits_value_prefix};
use crate::inventory::{BomRow, identifier_key, lcsc_id_of, unicode_uppercase};
use crate::text::{
    chars_of, contains_seq, decimal, extend_str, lines, lower_seq, string_from, trim, trim_str,
};

verus! {

/// The header row of CSV text read with `delimiter`, flexible row lengths and trimmed
/// fields, as the `csv` crate reads it, or the text of its error.
pub uninterp spec fn csv_header_row(content: Seq<char>, delimiter: u8) -> Result<
    Seq<Seq<char>>,
    Seq<char>,
>;

/// The data rows of CSV text read as `csv_header_row` says, in order, up to the first row
/// the `csv` crate cannot read, and the text of that error.
pub uninterp spec fn csv_data_rows(content: Seq<char>, delimiter: u8) -> (
    Seq<Seq<Seq<char>>>,
    Option<Seq<char>>,
);

pub open spec fn fields_view(v: Seq<String>) -> Seq<Seq<char>> {
    v.map_values(|s: String| s@)
}

pub open spec fn records_view(v: Seq<Vec<String>>) -> Seq<Seq<Seq<char>>> {
    v.map_values(|r: Vec<String>| fields_view(r@))
}

/// `csv::ReaderBuilder` (flexible, all fields trimmed) and `Reader::headers`: the header
/// row of `content`. The result is named by `csv_header_row`.
#[verifier::external_body]
fn read_csv_headers(content: &str, delimiter: u8) -> (r: Result<Vec<String>, String>)
    ensures
        match r {
            Ok(h) => csv_header_row(content@, delimiter) == Ok::<Seq<Seq<char>>, Seq<char>>(
                fields_view(h@),
            ),
            Err(e) => csv_header_row(content@, delimiter) == Err::<Seq<Seq<char>>, Seq<char>>(e@),
        },
{
    let mut reader = csv::ReaderBuilder::new().delimiter(delimiter).flexible(true).trim(
        csv::Trim::All,
    ).from_reader(content.as_bytes());
    match reader.headers() {
        Ok(h) => Ok(h.iter().map(|f| f.to_string()).collect()),
        Err(e) => Err(e.to_string()),
    }
}

/// `csv::ReaderBuilder` (flexible, all fields trimmed) and `Reader::records`: the data rows
/// of `content` up to the first error. The result is named by `csv_data_rows`; like any
/// `Vec` of non-empty values, the list of rows is shorter than `isize::MAX`.
#[verifier::external_body]
fn read_csv_records(content: &str, delimiter: u8) -> (r: (Vec<Vec<String>>, Option<String>))
    ensures
        csv_data_rows(content@, delimiter) == (records_view(r.0@), match r.1 {
            Some(e) => Some(e@),
            None => None::<Seq<char>>,
        }),
        r.0@.len() < isize::MAX,
{
    let mut reader = csv::ReaderBuilder::new().delimiter(delimiter).flexible(true).trim(
        csv::Trim::All,
    ).from_reader(content.as_bytes());
    let mut rows: Vec<Vec<String>> = Vec::new();
    for record in reader.records() {
        match record {
            Ok(r) => rows.push(r.iter().map(|f| f.to_string()).collect()),
            Err(e) => return (rows, Some(e.to_string())),
        }
    }
    (rows, None)
}

/// The text without a leading byte-order mark.
pub open spec fn without_bom(content: Seq<char>) -> Seq<char> {
    if content.len() > 0 && content[0] == '\u{feff}' {
        content.drop_first()
    } else {
        content
    }
}

/// The field delimiter: `;` when the first line holds one or there is no line, else `,`.
pub open spec fn delimiter_for(content: Seq<char>) -> u8 {
    if lines(content).len() == 0 || contains_seq(lines(content)[0], seq![';']) {
        59u8
    } else {
        44u8
    }
}

/// Whether header `h` is one of `names`, ignoring ASCII case.
pub open spec fn header_is(h: Seq<char>, names: Seq<Seq<char>>) -> bool {
    names.map_values(|n: Seq<char>| lower_seq(n)).contains(lower_seq(h))
}

/// The first column from `i` on whose header is one of `names`.
pub open spec fn column_from(headers: Seq<Seq<char>>, names: Seq<Seq<char>>, i: int) -> Option<int>
    decreases headers.len() - i,
{
    if i < 0 || i >= headers.len() {
        None
    } else if header_is(headers[i], names) {
        Some(i)
    } else {
        column_from(headers, names, i + 1)
    }
}

pub open spec fn quantity_names() -> Seq<Seq<char>> {
    seq!["数量"@, "Quantity"@]
}

pub open spec fn name_names() -> Seq<Seq<char>> {
    seq!["名称"@, "Value"@, "Name"@]
}

pub open spec fn package_names() -> Seq<Seq<char>> {
    seq!["封装"@, "Footprint"@, "Package"@]
}

pub open spec fn identifier_names() -> Seq<Seq<char>> {
    seq!["编号"@, "ID"@, "Identifier"@]
}

pub open spec fn reference_names() -> Seq<Seq<char>> {
    seq!["位号"@, "Reference"@, "References"@]
}

pub open spec fn supplier_names() -> Seq<Seq<char>> {
    seq!["供应商编号"@, "LCSC Part"@, "LCSC"@, "Supplier Part Number"@]
}

/// Where the columns of a bill of materials are.
#[derive(Clone, Copy, Debug, PartialEq, Eq)]
pub struct BomColumns {
    pub quantity: usize,
    pub name: usize,
    pub package: usize,
    pub identifier: Option<usize>,
    pub reference: Option<usize>,
    pub supplier: Option<usize>,
}

pub open spec fn opt_int(o: Option<usize>) -> Option<int> {
    match o {
        Some(v) => Some(v as int),
        None => None,
    }
}

/// `c` is where the columns of `headers` are: the first header of each kind.
pub open spec fn columns_of(headers: Seq<Seq<char>>, c: BomColumns) -> bool {
    &&& column_from(headers, quantity_names(), 0) == Some(c.quantity as int)
    &&& column_from(headers, name_names(), 0) == Some(c.name as int)
    &&& column_from(headers, package_names(), 0) == Some(c.package as int)
    &&& column_from(headers, identifier_names(), 0) == opt_int(c.identifier)
    &&& column_from(headers, reference_names(), 0) == opt_int(c.reference)
    &&& column_from(headers, supplier_names(), 0) == opt_int(c.supplier)
}

/// The error for a missing required column: the first of quantity, name and package that
/// has no header.
pub open spec fn missing_column(headers: Seq<Seq<char>>) -> Option<Seq<char>> {
    if column_from(headers, quantity_names(), 0) is None {
        Some("CSV is missing "@ + "数量"@ + " column"@)
    } else if column_from(headers, name_names(), 0) is None {
        Some("CSV is missing "@ + "名称"@ + " column"@)
    } else if column_from(headers, package_names(), 0) is None {
        Some("CSV is missing "@ + "封装"@ + " column"@)
    } else {
        None
    }
}

/// The header names of column kind `kind`: quantity, name, package, identifier,
/// reference and supplier, in that order.
pub open spec fn names_of_kind(kind: u8) -> Seq<Seq<char>> {
    if kind == 0 {
            quantity_names()
        } else if kind == 1 {
            name_names()
        } else if kind == 2 {
            package_names()
        } else if kind == 3 {
            identifier_names()
        } else if kind == 4 {
            reference_names()
        } else {
            supplier_names()
        }
}

fn names_chars(kind: u8) -> (r: Vec<Vec<char>>)
    requires
        kind < 6,
    ensures
        r@.map_values(|v: Vec<char>| v@) == names_of_kind(kind),
{
    let r = if kind == 0 {
        vec![chars_of("数量"), chars_of("Quantity")]
    } else if kind == 1 {
        vec![chars_of("名称"), chars_of("Value"), chars_of("Name")]
    } else if kind == 2 {
        vec![chars_of("封装"), chars_of("Footprint"), chars_of("Package")]
    } else if kind == 3 {
        vec![chars_of("编号"), chars_of("ID"), chars_of("Identifier")]
    } else if kind == 4 {
        vec![chars_of("位号"), chars_of("Reference"), chars_of("References")]
    } else {
        vec![
            chars_of("供应商编号"),
            chars_of("LCSC Part"),
            chars_of("LCSC"),
            chars_of("Supplier Part Number"),
        ]
    };
    proof {
        let want = if kind == 0 {
            quantity_names()
        } else if kind == 1 {
            name_names()
        } else if kind == 2 {
            package_names()
        } else if kind == 3 {
            identifier_names()
        } else if kind == 4 {
            reference_names()
        } else {
            supplier_names()
        };
        assert(r@.map_values(|v: Vec<char>| v@) =~= want);
    }
    r
}

fn header_matches(h: &str, names: &Vec<Vec<char>>) -> (r: bool)
    ensures
        r == header_is(h@, names@.map_values(|v: Vec<char>| v@)),
{
    let hl = crate::text::lower_chars(chars_of(h).as_slice());
    let ghost nv = names@.map_values(|v: Vec<char>| v@);
    let ghost lowered = nv.map_values(|n: Seq<char>| lower_seq(n));
    let mut k: usize = 0;
    while k < names.len()
        invariant
            k <= names.len(),
            nv == names@.map_values(|v: Vec<char>| v@),
            lowered == nv.map_values(|n: Seq<char>| lower_seq(n)),
            hl@ == lower_seq(h@),
            forall|j: int| 0 <= j < k ==> lowered[j] != hl@,
        decreases names.len() - k,
    {
        let nl = crate::text::lower_chars(names[k].as_slice());
        if crate::text::chars_eq(nl.as_slice(), hl.as_slice()) {
            assert(lowered[k as int] == hl@);
            return true;
        }
        k = k + 1;
    }
    false
}

fn find_column(headers: &Vec<String>, kind: u8) -> (r: Option<usize>)
    requires
        kind < 6,
    ensures
        opt_int(r) == column_from(fields_view(headers@), names_of_kind(kind), 0),
{
    let names = names_chars(kind);
    let ghost nv = names@.map_values(|v: Vec<char>| v@);
    let ghost hv = fields_view(headers@);
    let mut i: usize = 0;
    while i < headers.len()
        invariant
            i <= headers.len(),
            hv == fields_view(headers@),
            nv == names@.map_values(|v: Vec<char>| v@),
            nv == names_of_kind(kind),
            column_from(hv, nv, 0) == column_from(hv, nv, i as int),
        decreases headers.len() - i,
    {
        assert(hv[i as int] == headers@[i as int]@);
        if header_matches(headers[i].as_str(), &names) {
            return Some(i);
        }
        i = i + 1;
    }
    None
}

fn missing_message(name: &str) -> (r: String)
    ensures
        r@ == "CSV is missing "@ + name@ + " column"@,
{
    let mut v: Vec<char> = Vec::new();
    extend_str(&mut v, "CSV is missing ");
    extend_str(&mut v, name);
    extend_str(&mut v, " column");
    string_from(v.as_slice())
}

/// Finds the columns of a bill of materials; refused when a required one is missing (see
/// `missing_column`).
pub fn bom_columns(headers: &Vec<String>) -> (r: Result<BomColumns, String>)
    ensures
        match missing_column(fields_view(headers@)) {
            Some(m) => r is Err && r->Err_0@ == m,
            None => r is Ok && columns_of(fields_view(headers@), r->Ok_0),
        },
{
    let quantity = match find_column(headers, 0) {
        Some(c) => c,
        None => return Err(missing_message("数量")),
    };
    let name = match find_column(headers, 1) {
        Some(c) => c,
        None => return Err(missing_message("名称")),
    };
    let package = match find_column(headers, 2) {
        Some(c) => c,
        None => return Err(missing_message("封装")),
    };
    Ok(
        BomColumns {
            quantity,
            name,
            package,
            identifier: find_column(headers, 3),
            reference: find_column(headers, 4),
            supplier: find_column(headers, 5),
        },
    )
}

/// `u64::from_str`: an optional `+` and at least one decimal digit, with a value that fits.
pub open spec fn parsed_u64(s: Seq<char>) -> Option<nat> {
    if sign_stripped(s).len() > 0 && all_digits(sign_stripped(s)) && digits_value(sign_stripped(s))
        <= u64::MAX {
        Some(digits_value(sign_stripped(s)))
    } else {
        None
    }
}

/// Reads a count written in decimal (see `parsed_u64`).
pub fn parse_u64(s: &[char]) -> (r: Option<u64>)
    ensures
        match r {
            Some(v) => parsed_u64(s@) == Some(v as nat),
            None => parsed_u64(s@) is None,
        },
{
    let start: usize = if s.len() > 0 && s[0] == '+' {
        1
    } else {
        0
    };
    let ghost d = sign_stripped(s@);
    assert(d =~= s@.skip(start as int));
    if start == s.len() {
        return None;
    }
    let mut v: u64 = 0;
    let mut i: usize = start;
    while i < s.len()
        invariant
            start <= i <= s.len(),
            d == s@.skip(start as int),
            d == sign_stripped(s@),
            forall|j: int| start <= j < i ==> '0' <= #[trigger] s@[j] && s@[j] <= '9',
            v == digits_value(s@.subrange(start as int, i as int)),
        decreases s.len() - i,
    {
        let c = s[i];
        if !('0' <= c && c <= '9') {
            proof {
                let k: int = i - start;
                assert(d[k] == c);
                assert(!all_digits(d));
            }
            return None;
        }
        let digit: u64 = ((c as u32) - 48) as u64;
        assert(s@.subrange(start as int, i + 1).drop_last() =~= s@.subrange(start as int, i as int));
        assert(digits_value(s@.subrange(start as int, i + 1)) == v * 10 + digit);
        if v > (u64::MAX - digit) / 10 {
            proof {
                lemma_digits_value_prefix(s@.subrange(start as int, s.len() as int), i + 1 - start);
                assert(s@.subrange(start as int, s.len() as int).take(i + 1 - start) =~= s@.subrange(
                    start as int,
                    i + 1,
                ));
                assert(s@.subrange(start as int, s.len() as int) =~= d);
                assert(v * 10 + digit > u64::MAX) by (nonlinear_arith)
                    requires
                        v > (u64::MAX - digit) / 10,
                        digit < 10,
                ;
            }
            return None;
        }
        v = v * 10 + digit;
        i = i + 1;
    }
    assert(s@.subrange(start as int, s.len() as int) =~= d);
    Some(v)
}

/// The trimmed text of field `pos` of a record, empty when the record is shorter.
pub open spec fn field(rec: Seq<Seq<char>>, pos: int) -> Seq<char> {
    if 0 <= pos < rec.len() {
        trim(rec[pos])
    } else {
        Seq::empty()
    }
}

pub open spec fn opt_field(rec: Seq<Seq<char>>, pos: Option<usize>) -> Seq<char> {
    match pos {
        Some(p) => field(rec, p as int),
        None => Seq::empty(),
    }
}

/// A record whose fields are all blank.
pub open spec fn blank_record(rec: Seq<Seq<char>>) -> bool {
    forall|i: int| 0 <= i < rec.len() ==> trim(#[trigger] rec[i]).len() == 0
}

/// The part number written in the supplier column, as a key: trimmed, upper-cased and
/// without whitespace; `None` when blank or when there is no such column.
pub open spec fn explicit_supplier(rec: Seq<Seq<char>>, c: BomColumns) -> Option<Seq<char>> {
    match c.supplier {
        Some(p) => {
            let u = unicode_uppercase(trim(field(rec, p as int)));
            if u.len() == 0 {
                None
            } else {
                Some(identifier_key(u))
            }
        },
        None => None,
    }
}

pub open spec fn first_some(
    a: Option<Seq<char>>,
    b: Option<Seq<char>>,
    c: Option<Seq<char>>,
) -> Option<Seq<char>> {
    if a is Some {
        a
    } else if b is Some {
        b
    } else {
        c
    }
}

/// Two of the given part numbers are present and differ.
pub open spec fn conflicting(a: Option<Seq<char>>, b: Option<Seq<char>>, c: Option<Seq<char>>) -> bool {
    ||| (a is Some && b is Some && a != b)
    ||| (a is Some && c is Some && a != c)
    ||| (b is Some && c is Some && b != c)
}

/// A row of a bill of materials, by value.
pub struct BomRowView {
    pub row_number: int,
    pub identifier: Seq<char>,
    pub references: Seq<char>,
    pub supplier_part_number: Option<Seq<char>>,
    pub supplier_part_number_source: Option<Seq<char>>,
    pub supplier_part_number_conflict: bool,
    pub name: Seq<char>,
    pub package: Seq<char>,
    pub quantity: nat,
}

pub open spec fn opt_view(o: Option<String>) -> Option<Seq<char>> {
    match o {
        Some(s) => Some(s@),
        None => None,
    }
}

pub open spec fn row_view(r: BomRow) -> BomRowView {
    BomRowView {
        row_number: r.row_number as int,
        identifier: r.identifier@,
        references: r.references@,
        supplier_part_number: opt_view(r.supplier_part_number),
        supplier_part_number_source: opt_view(r.supplier_part_number_source),
        supplier_part_number_conflict: r.supplier_part_number_conflict,
        name: r.name@,
        package: r.package@,
        quantity: r.quantity as nat,
    }
}

pub open spec fn row_label(index: int) -> Seq<char> {
    decimal((index + 2) as nat)
}

/// The row that record `index` (counted from 0 after the header) gives, or why it is
/// refused: a quantity that is not a positive number, or a blank name or package. The
/// supplier part number comes from the supplier column, else from the package, else from
/// the name.
pub open spec fn bom_row_of(rec: Seq<Seq<char>>, index: int, c: BomColumns) -> Result<BomRowView, Seq<char>> {
    match parsed_u64(field(rec, c.quantity as int)) {
        None => Err("Invalid 数量 at CSV row "@ + row_label(index)),
        Some(n) => if n == 0 {
            Err("数量 must be greater than zero at CSV row "@ + row_label(index))
        } else {
            let name = field(rec, c.name as int);
            let package = field(rec, c.package as int);
            if name.len() == 0 || package.len() == 0 {
                Err("名称 and 封装 are required at CSV row "@ + row_label(index))
            } else {
                let e = explicit_supplier(rec, c);
                let p = lcsc_id_of(package);
                let m = lcsc_id_of(name);
                Ok(
                    BomRowView {
                        row_number: index + 2,
                        identifier: opt_field(rec, c.identifier),
                        references: opt_field(rec, c.reference),
                        supplier_part_number: first_some(e, p, m),
                        supplier_part_number_source: if e is Some {
                            Some("供应商编号"@)
                        } else if p is Some {
                            Some("封装"@)
                        } else if m is Some {
                            Some("名称"@)
                        } else {
                            None
                        },
                        supplier_part_number_conflict: conflicting(e, p, m),
                        name,
                        package,
                        quantity: n,
                    },
                )
            }
        },
    }
}

/// The rows of records `k..`, blank records left out, or the first row's error.
pub open spec fn rows_from(records: Seq<Seq<Seq<char>>>, c: BomColumns, k: int) -> Result<
    Seq<BomRowView>,
    Seq<char>,
>
    decreases records.len() - k,
{
    if k < 0 || k >= records.len() {
        Ok(Seq::empty())
    } else if blank_record(records[k]) {
        rows_from(records, c, k + 1)
    } else {
        match bom_row_of(records[k], k, c) {
            Err(e) => Err(e),
            Ok(row) => match rows_from(records, c, k + 1) {
                Ok(rest) => Ok(seq![row] + rest),
                Err(e) => Err(e),
            },
        }
    }
}

/// The rows of a bill of materials in CSV text, or why it is refused: the header cannot be
/// read, a required column is missing, a row is invalid, a record cannot be read, or there
/// is no data row.
pub open spec fn bom_table(content: Seq<char>) -> Result<Seq<BomRowView>, Seq<char>> {
    let t = without_bom(content);
    let d = delimiter_for(t);
    match csv_header_row(t, d) {
        Err(e) => Err("CSV header failed: "@ + e),
        Ok(h) => match missing_column(h) {
            Some(m) => Err(m),
            None => {
                let (recs, err) = csv_data_rows(t, d);
                match choose_columns(h) {
                    c => match rows_from(recs, c, 0) {
                        Err(e) => Err(e),
                        Ok(rows) => match err {
                            Some(e) => Err(
                                "CSV row "@ + decimal((recs.len() + 2) as nat) + " failed: "@ + e,
                            ),
                            None => if rows.len() == 0 {
                                Err("CSV has no data rows"@)
                            } else {
                                Ok(rows)
                            },
                        },
                    },
                }
            },
        },
    }
}

/// The columns of headers that have all the required ones.
pub open spec fn choose_columns(h: Seq<Seq<char>>) -> BomColumns {
    choose|c: BomColumns| columns_of(h, c)
}

proof fn lemma_columns_unique(h: Seq<Seq<char>>, c: BomColumns)
    requires
        columns_of(h, c),
    ensures
        choose_columns(h) == c,
{
    let d = choose_columns(h);
    assert(columns_of(h, d));
    assert(c.identifier == d.identifier) by {
        if c.identifier is Some {
            assert(d.identifier is Some);
        }
    }
    assert(c.reference == d.reference) by {
        if c.reference is Some {
            assert(d.reference is Some);
        }
    }
    assert(c.supplier == d.supplier) by {
        if c.supplier is Some {
            assert(d.supplier is Some);
        }
    }
}

fn field_text(rec: &Vec<String>, pos: usize) -> (r: String)
    ensures
        r@ == field(fields_view(rec@), pos as int),
{
    if pos < rec.len() {
        trim_str(rec[pos].as_str())
    } else {
        String::new()
    }
}

fn opt_field_text(rec: &Vec<String>, pos: Option<usize>) -> (r: String)
    ensures
        r@ == opt_field(fields_view(rec@), pos),
{
    match pos {
        Some(p) => field_text(rec, p),
        None => String::new(),
    }
}

fn is_blank_record(rec: &Vec<String>) -> (r: bool)
    ensures
        r == blank_record(fields_view(rec@)),
{
    let ghost rv = fields_view(rec@);
    let mut i: usize = 0;
    while i < rec.len()
        invariant
            i <= rec.len(),
            rv == fields_view(rec@),
            forall|j: int| 0 <= j < i ==> trim(#[trigger] rv[j]).len() == 0,
        decreases rec.len() - i,
    {
        let t = trim_str(rec[i].as_str());
        if !t.as_str().is_empty() {
            assert(trim(rv[i as int]).len() != 0);
            return false;
        }
        i = i + 1;
    }
    true
}

fn row_message(prefix: &str, index: usize) -> (r: String)
    requires
        index + 2 <= usize::MAX,
    ensures
        r@ == prefix@ + row_label(index as int),
{
    let mut v: Vec<char> = Vec::new();
    extend_str(&mut v, prefix);
    let n = crate::text::decimal_string((index + 2) as u64);
    extend_str(&mut v, n.as_str());
    string_from(v.as_slice())
}

fn same_opt(a: &Option<String>, b: &Option<String>) -> (r: bool)
    ensures
        r == (opt_view(*a) == opt_view(*b)),
{
    match (a, b) {
        (Some(x), Some(y)) => crate::text::str_eq(x.as_str(), y.as_str()),
        (None, None) => true,
        _ => false,
    }
}

fn copy_opt(o: &Option<String>) -> (r: Option<String>)
    ensures
        opt_view(r) == opt_view(*o),
{
    match o {
        Some(s) => Some(s.clone()),
        None => None,
    }
}

/// The row that record `index` gives (see `bom_row_of`).
pub fn bom_row(rec: &Vec<String>, index: usize, c: BomColumns) -> (r: Result<BomRow, String>)
    requires
        index + 2 <= usize::MAX,
    ensures
        match bom_row_of(fields_view(rec@), index as int, c) {
            Ok(v) => r is Ok && row_view(r->Ok_0) == v,
            Err(e) => r is Err && r->Err_0@ == e,
        },
{
    let q = field_text(rec, c.quantity);
    let qc = chars_of(q.as_str());
    let n = match parse_u64(qc.as_slice()) {
        Some(n) => n,
        None => return Err(row_message("Invalid 数量 at CSV row ", index)),
    };
    if n == 0 {
        return Err(row_message("数量 must be greater than zero at CSV row ", index));
    }
    let name = field_text(rec, c.name);
    let package = field_text(rec, c.package);
    if name.as_str().is_empty() || package.as_str().is_empty() {
        return Err(row_message("名称 and 封装 are required at CSV row ", index));
    }
    let explicit: Option<String> = match c.supplier {
        Some(p) => match crate::inventory::normalize_optional(Some(field_text(rec, p))) {
            Some(u) => Some(crate::inventory::normalize_identifier(u.as_str())),
            None => None,
        },
        None => None,
    };
    let from_package = crate::inventory::extract_lcsc_id(package.as_str());
    let from_name = crate::inventory::extract_lcsc_id(name.as_str());
    let conflict = (explicit.is_some() && from_package.is_some() && !same_opt(&explicit, &from_package))
        || (explicit.is_some() && from_name.is_some() && !same_opt(&explicit, &from_name)) || (
    from_package.is_some() && from_name.is_some() && !same_opt(&from_package, &from_name));
    let source: Option<String> = if explicit.is_some() {
        Some("供应商编号".to_owned())
    } else if from_package.is_some() {
        Some("封装".to_owned())
    } else if from_name.is_some() {
        Some("名称".to_owned())
    } else {
        None
    };
    let supplier = if explicit.is_some() {
        copy_opt(&explicit)
    } else if from_package.is_some() {
        copy_opt(&from_package)
    } else {
        copy_opt(&from_name)
    };
    Ok(
        BomRow {
            row_number: index + 2,
            identifier: opt_field_text(rec, c.identifier),
            references: opt_field_text(rec, c.reference),
            supplier_part_number: supplier,
            supplier_part_number_source: source,
            supplier_part_number_conflict: conflict,
            name,
            package,
            quantity: n,
        },
    )
}

pub open spec fn rows_view(v: Seq<BomRow>) -> Seq<BomRowView> {
    v.map_values(|r: BomRow| row_view(r))
}

pub open spec fn prefixed_rows(acc: Seq<BomRowView>, r: Result<Seq<BomRowView>, Seq<char>>) -> Result<
    Seq<BomRowView>,
    Seq<char>,
> {
    match r {
        Ok(rest) => Ok(acc + rest),
        Err(e) => Err(e),
    }
}

/// The rows of the records (see `rows_from`).
fn bom_rows(records: &Vec<Vec<String>>, c: BomColumns) -> (r: Result<Vec<BomRow>, String>)
    requires
        records@.len() < isize::MAX,
    ensures
        match rows_from(records_view(records@), c, 0) {
            Ok(rows) => r is Ok && rows_view(r->Ok_0@) == rows,
            Err(e) => r is Err && r->Err_0@ == e,
        },
{
    let ghost rv = records_view(records@);
    let mut out: Vec<BomRow> = Vec::new();
    let mut k: usize = 0;
    assert(rows_view(out@) + Seq::<BomRowView>::empty() =~= Seq::<BomRowView>::empty());
    while k < records.len()
        invariant
            k <= records.len() < isize::MAX,
            rv == records_view(records@),
            prefixed_rows(Seq::empty(), rows_from(rv, c, 0)) == prefixed_rows(
                rows_view(out@),
                rows_from(rv, c, k as int),
            ),
        decreases records.len() - k,
    {
        assert(rv[k as int] == fields_view(records@[k as int]@));
        if !is_blank_record(&records[k]) {
            let ghost before = rows_view(out@);
            match bom_row(&records[k], k, c) {
                Ok(row) => {
                    out.push(row);
                    proof {
                        assert(rows_view(out@) =~= before.push(row_view(row)));
                        match rows_from(rv, c, k + 1) {
                            Ok(rest) => {
                                assert(before + (seq![row_view(row)] + rest) =~= rows_view(out@) + rest);
                            },
                            Err(e) => {},
                        }
                    }
                },
                Err(e) => {
                    proof {
                        let z = rows_from(rv, c, 0);
                        if z is Ok {
                            assert(Seq::<BomRowView>::empty() + z->Ok_0 =~= z->Ok_0);
                        }
                    }
                    return Err(e);
                },
            }
        }
        k = k + 1;
    }
    proof {
        let z = rows_from(rv, c, 0);
        assert(rows_view(out@) + Seq::<BomRowView>::empty() =~= rows_view(out@));
        if z is Ok {
            assert(Seq::<BomRowView>::empty() + z->Ok_0 =~= z->Ok_0);
        }
    }
    Ok(out)
}

/// Reads a bill of materials from the text of a CSV file (see `bom_table`).
pub fn parse_bom_csv(content: &str) -> (r: Result<Vec<BomRow>, String>)
    ensures
        match bom_table(content@) {
            Ok(rows) => r is Ok && rows_view(r->Ok_0@) == rows,
            Err(e) => r is Err && r->Err_0@ == e,
        },
{
    let cs = chars_of(content);
    let t: String = if cs.len() > 0 && cs[0] == '\u{feff}' {
        let v = crate::sexpr::slice_range(cs.as_slice(), 1, cs.len());
        assert(v@ =~= content@.drop_first());
        string_from(v.as_slice())
    } else {
        string_from(cs.as_slice())
    };
    assert(t@ == without_bom(content@));
    let tc = chars_of(t.as_str());
    let ls = crate::text::lines_of(tc.as_slice());
    let semicolon = vec![';'];
    assert(semicolon@ =~= seq![';']);
    let delimiter: u8 = if ls.len() == 0 || crate::text::contains_chars(ls[0].as_slice(), semicolon.as_slice()) {
        59u8
    } else {
        44u8
    };
    assert(delimiter == delimiter_for(t@));
    let headers = match read_csv_headers(t.as_str(), delimiter) {
        Ok(h) => h,
        Err(e) => {
            let mut v: Vec<char> = Vec::new();
            extend_str(&mut v, "CSV header failed: ");
            extend_str(&mut v, e.as_str());
            return Err(string_from(v.as_slice()));
        },
    };
    let columns = match bom_columns(&headers) {
        Ok(c) => c,
        Err(m) => return Err(m),
    };
    proof {
        lemma_columns_unique(fields_view(headers@), columns);
    }
    let (records, err) = read_csv_records(t.as_str(), delimiter);
    let rows = match bom_rows(&records, columns) {
        Ok(rows) => rows,
        Err(e) => return Err(e),
    };
    match err {
        Some(e) => {
            let mut v: Vec<char> = Vec::new();
            extend_str(&mut v, "CSV row ");
            let n = crate::text::decimal_string((records.len() + 2) as u64);
            extend_str(&mut v, n.as_str());
            extend_str(&mut v, " failed: ");
            extend_str(&mut v, e.as_str());
            assert(records_view(records@).len() == records@.len());
            return Err(string_from(v.as_slice()));
        },
        None => {},
    }
    if rows.len() == 0 {
        return Err("CSV has no data rows".to_owned());
    }
    Ok(rows)
}

} // verus!
