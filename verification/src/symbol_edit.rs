use vstd::prelude::*;
use crate::text::{
    trim, trim_str, chars_of, string_from, extend_chars, extend_str, chars_eq, str_eq, lines,
    lines_of, join_lines, join_lines_chars, split_on, split_chars, decimal, decimal_chars,
    lower_seq, lower_chars, contains_seq, contains_chars, ends_with, ends_with_chars,
    trim_chars, lemma_split_prefix_nonempty,
};
use crate::sexpr::{head_string, escape_quotes, escape_quote_chars, slice_range};
use crate::paths::{extension, file_stem, extension_chars, file_stem_chars};
use crate::imported_symbols::{
    SymbolBlock, Replacement, rep_view, reps_view, renames_from, rename_symbol_names_in_block,
    property_range_from, property_of, property_value_range, name_lcsc_part, applied,
    apply_replacements, replace_error_message, blocks_from, scan_error_message,
    top_level_symbol_blocks, block_describes, kw_symbol, or_empty, or_else,
    footprint_name_of_block, footprint_name_from_symbol_block,
};

verus! {

fn owned(s: &str) -> (r: String)
    ensures
        r@ == s@,
{
    s.to_owned()
}

/// A symbol block with its names renamed from `cur` to `new` and its LCSC number set to
/// `lcsc`, or the message of why that failed.
pub open spec fn updated_block(block: Seq<char>, cur: Seq<char>, new: Seq<char>, lcsc: Seq<char>) -> Result<
    Seq<char>,
    Seq<char>,
> {
    match renames_from(block, 0, cur, new) {
        None => Err("symbol block is missing a name"@),
        Some(reps) => match property_range_from(block, 0, name_lcsc_part()) {
            None => Err("Symbol is missing LCSC Part property"@),
            Some((a, b)) => match applied(block, reps.push((a, b, escape_quotes(lcsc)))) {
                Ok(v) => Ok(v),
                Err(e) => Err(replace_error_message(e)),
            },
        },
    }
}

/// Renames the symbol and its units and sets the `LCSC Part` property of one block.
pub fn update_symbol_block(block: &[char], cur: &[char], new: &[char], lcsc: &[char]) -> (r: Result<
    Vec<char>,
    String,
>)
    ensures
        match r {
            Ok(v) => updated_block(block@, cur@, new@, lcsc@) == Ok::<Seq<char>, Seq<char>>(v@),
            Err(m) => updated_block(block@, cur@, new@, lcsc@) == Err::<Seq<char>, Seq<char>>(m@),
        },
{
    let mut reps = match rename_symbol_names_in_block(block, cur, new) {
        Ok(v) => v,
        Err(m) => return Err(m),
    };
    let name = crate::imported_symbols::name_lcsc_part_chars();
    let (a, b) = match property_value_range(block, name.as_slice()) {
        Some(x) => x,
        None => return Err(owned("Symbol is missing LCSC Part property")),
    };
    let ghost before = reps_view(reps@);
    let t = escape_quote_chars(lcsc);
    reps.push((a, b, t));
    assert(reps_view(reps@) =~= before.push((a as int, b as int, escape_quotes(lcsc@))));
    apply_replacements(block, reps)
}

/// Some block other than the one being renamed already carries the name `new`.
pub open spec fn name_taken(blocks: Seq<SymbolBlock>, cur: Seq<char>, new: Seq<char>) -> bool {
    cur != new && exists|k: int| 0 <= k < blocks.len() && (#[trigger] blocks[k]).symbol_name@ == new
}

/// Refuses a rename onto a name that another symbol of the library already has.
pub fn ensure_symbol_name_available(blocks: &[SymbolBlock], cur: &[char], new: &[char]) -> (r: Result<
    (),
    String,
>)
    ensures
        r is Ok <==> !name_taken(blocks@, cur@, new@),
        r matches Err(m) ==> m@ == "Symbol "@ + new@ + " already exists in this library"@,
{
    if chars_eq(cur, new) {
        return Ok(());
    }
    let mut k: usize = 0;
    while k < blocks.len()
        invariant
            k <= blocks.len(),
            cur@ != new@,
            forall|j: int| 0 <= j < k ==> (#[trigger] blocks@[j]).symbol_name@ != new@,
        decreases blocks.len() - k,
    {
        if chars_eq(blocks[k].symbol_name.as_slice(), new) {
            let mut m: Vec<char> = Vec::new();
            extend_str(&mut m, "Symbol ");
            extend_chars(&mut m, new);
            extend_str(&mut m, " already exists in this library");
            return Err(string_from(m.as_slice()));
        }
        k = k + 1;
    }
    Ok(())
}

/// The text of a block found at `span` in `s`.
pub open spec fn span_text(s: Seq<char>, span: (int, int)) -> Seq<char> {
    s.subrange(span.0, span.1)
}

/// The name of the block found at `span` in `s`.
pub open spec fn span_name(s: Seq<char>, span: (int, int)) -> Seq<char> {
    or_empty(head_string(span_text(s, span), kw_symbol()))
}

/// The first block from position `k` on that is named `name`.
pub open spec fn first_named_from(s: Seq<char>, spans: Seq<(int, int)>, name: Seq<char>, k: int) -> Option<int>
    decreases spans.len() - k,
{
    if k < 0 || k >= spans.len() {
        None
    } else if span_name(s, spans[k]) == name {
        Some(k)
    } else {
        first_named_from(s, spans, name, k + 1)
    }
}

/// The first block of `blocks` named `name`.
fn find_block(s: &[char], blocks: &[SymbolBlock], name: &[char], Ghost(spans): Ghost<Seq<(int, int)>>) -> (r: Option<usize>)
    requires
        blocks@.len() == spans.len(),
        forall|k: int| 0 <= k < blocks@.len() ==> block_describes(s@, #[trigger] blocks@[k]) && (
            blocks@[k].start as int, blocks@[k].end as int) == spans[k],
    ensures
        match r {
            Some(k) => first_named_from(s@, spans, name@, 0) == Some(k as int) && k < blocks@.len(),
            None => first_named_from(s@, spans, name@, 0) is None,
        },
{
    let mut k: usize = 0;
    while k < blocks.len()
        invariant
            k <= blocks.len(),
            blocks@.len() == spans.len(),
            forall|j: int| 0 <= j < blocks@.len() ==> block_describes(s@, #[trigger] blocks@[j]) && (
                blocks@[j].start as int, blocks@[j].end as int) == spans[j],
            first_named_from(s@, spans, name@, 0) == first_named_from(s@, spans, name@, k as int),
        decreases blocks.len() - k,
    {
        assert(block_describes(s@, blocks@[k as int]));
        assert(span_name(s@, spans[k as int]) == blocks@[k as int].symbol_name@);
        if chars_eq(blocks[k].symbol_name.as_slice(), name) {
            return Some(k);
        }
        k = k + 1;
    }
    None
}

/// The library text `s` after renaming its symbol `name` to `new` and setting its LCSC
/// number, or the message of why that failed.
pub open spec fn updated_library(
    s: Seq<char>,
    name: Seq<char>,
    source_file: Seq<char>,
    new: Seq<char>,
    lcsc: Seq<char>,
) -> Result<Seq<char>, Seq<char>> {
    match blocks_from(s, 0, 0, false, false) {
        Err(e) => Err(scan_error_message(e)),
        Ok(spans) => match first_named_from(s, spans, name, 0) {
            None => Err("Symbol "@ + name + " was not found in "@ + source_file),
            Some(k) => if name != new && exists|j: int|
                0 <= j < spans.len() && span_name(s, #[trigger] spans[j]) == new {
                Err("Symbol "@ + new + " already exists in this library"@)
            } else {
                match updated_block(span_text(s, spans[k]), name, new, lcsc) {
                    Err(m) => Err(m),
                    Ok(nb) => match applied(s, seq![(spans[k].0, spans[k].1, nb)]) {
                        Ok(v) => Ok(v),
                        Err(e) => Err(replace_error_message(e)),
                    },
                }
            },
        },
    }
}

/// The new text of a symbol library in which symbol `name` is renamed to `new` and gets the
/// LCSC number `lcsc`.
pub fn update_library_content(
    content: &str,
    name: &str,
    source_file: &str,
    new: &str,
    lcsc: &str,
) -> (r: Result<String, String>)
    ensures
        match r {
            Ok(v) => updated_library(content@, name@, source_file@, new@, lcsc@) == Ok::<
                Seq<char>,
                Seq<char>,
            >(v@),
            Err(m) => updated_library(content@, name@, source_file@, new@, lcsc@) == Err::<
                Seq<char>,
                Seq<char>,
            >(m@),
        },
{
    let cs = chars_of(content);
    let name_cs = chars_of(name);
    let new_cs = chars_of(new);
    let lcsc_cs = chars_of(lcsc);
    let blocks = match top_level_symbol_blocks(cs.as_slice()) {
        Ok(b) => b,
        Err(m) => return Err(m),
    };
    let ghost spans = match blocks_from(content@, 0, 0, false, false) {
        Ok(sp) => sp,
        Err(_) => Seq::empty(),
    };
    let k = match find_block(cs.as_slice(), blocks.as_slice(), name_cs.as_slice(), Ghost(spans)) {
        Some(k) => k,
        None => {
            let mut m: Vec<char> = Vec::new();
            extend_str(&mut m, "Symbol ");
            extend_str(&mut m, name);
            extend_str(&mut m, " was not found in ");
            extend_str(&mut m, source_file);
            return Err(string_from(m.as_slice()));
        },
    };
    match ensure_symbol_name_available(blocks.as_slice(), name_cs.as_slice(), new_cs.as_slice()) {
        Ok(()) => {
            assert(!(name@ != new@ && exists|j: int|
                0 <= j < spans.len() && span_name(content@, #[trigger] spans[j]) == new@)) by {
                if name@ != new@ {
                    assert forall|j: int| 0 <= j < spans.len() implies span_name(content@, #[trigger] spans[j]) != new@ by {
                        assert(block_describes(content@, blocks@[j]));
                        assert(blocks@[j].symbol_name@ != new@);
                    }
                }
            }
        },
        Err(m) => {
            proof {
                let j = choose|j: int| 0 <= j < blocks@.len() && (#[trigger] blocks@[j]).symbol_name@ == new@;
                assert(block_describes(content@, blocks@[j]));
                assert(span_name(content@, spans[j]) == new@);
            }
            return Err(m);
        },
    }
    let b = &blocks[k];
    assert(block_describes(content@, blocks@[k as int]));
    let text = slice_range(cs.as_slice(), b.start, b.end);
    let nb = match update_symbol_block(text.as_slice(), name_cs.as_slice(), new_cs.as_slice(), lcsc_cs.as_slice()) {
        Ok(v) => v,
        Err(m) => return Err(m),
    };
    let mut reps: Vec<Replacement> = Vec::new();
    reps.push((b.start, b.end, nb));
    assert(reps_view(reps@) =~= seq![(spans[k as int].0, spans[k as int].1, nb@)]);
    match apply_replacements(cs.as_slice(), reps) {
        Ok(v) => Ok(string_from(v.as_slice())),
        Err(m) => Err(m),
    }
}

/// The trimmed new name and LCSC number of an update request, or why it is refused.
pub open spec fn update_request_check(new_name: Seq<char>, lcsc: Seq<char>) -> Result<
    (Seq<char>, Seq<char>),
    Seq<char>,
> {
    if trim(new_name).len() == 0 {
        Err("Symbol name cannot be empty"@)
    } else if trim(lcsc).len() == 0 {
        Err("LCSC Part cannot be empty"@)
    } else {
        Ok((trim(new_name), trim(lcsc)))
    }
}

/// Checks an update request before any file is touched: the new name and LCSC number must
/// not be blank; both come back trimmed.
pub fn check_update_request(req: &crate::imported_symbols::ImportedSymbolUpdateRequest) -> (r: Result<
    (String, String),
    String,
>)
    ensures
        match r {
            Ok((n, l)) => update_request_check(req.new_symbol_name@, req.lcsc_part@) == Ok::<
                (Seq<char>, Seq<char>),
                Seq<char>,
            >((n@, l@)),
            Err(m) => update_request_check(req.new_symbol_name@, req.lcsc_part@) == Err::<
                (Seq<char>, Seq<char>),
                Seq<char>,
            >(m@),
        },
{
    let n = trim_str(req.new_symbol_name.as_str());
    let l = trim_str(req.lcsc_part.as_str());
    if n.as_str().is_empty() {
        return Err(owned("Symbol name cannot be empty"));
    }
    if l.as_str().is_empty() {
        return Err(owned("LCSC Part cannot be empty"));
    }
    Ok((n, l))
}

/// The message of a successful update.
pub fn update_message(name: &str, source_file: &str) -> (r: String)
    ensures
        r@ == "Updated "@ + name@ + " in "@ + source_file@,
{
    let mut m: Vec<char> = Vec::new();
    extend_str(&mut m, "Updated ");
    extend_str(&mut m, name);
    extend_str(&mut m, " in ");
    extend_str(&mut m, source_file);
    string_from(m.as_slice())
}

/// Where the line holding position `i` of `s` starts.
pub open spec fn line_start(s: Seq<char>, i: int) -> int
    decreases i,
{
    if i <= 0 {
        0
    } else if s[i - 1] == '\n' {
        i
    } else {
        line_start(s, i - 1)
    }
}

/// `s` without the block at `a..b`: from the start of its line (unless that line is the
/// first one) through one line break after it.
pub open spec fn block_removed(s: Seq<char>, a: int, b: int) -> Seq<char> {
    let ls = line_start(s, a);
    let st = if ls == 0 {
        a
    } else {
        ls
    };
    let en = if b + 2 <= s.len() && s[b] == '\r' && s[b + 1] == '\n' {
        b + 2
    } else if b < s.len() && s[b] == '\n' {
        b + 1
    } else {
        b
    };
    s.take(st) + s.skip(en)
}

/// Removes the block at `start..end` from `content` (see `block_removed`).
pub fn delete_symbol_block(content: &[char], start: usize, end: usize) -> (r: Vec<char>)
    requires
        start <= end <= content.len(),
    ensures
        r@ == block_removed(content@, start as int, end as int),
{
    let mut i = start;
    while i > 0 && content[i - 1] != '\n'
        invariant
            i <= start <= content.len(),
            line_start(content@, start as int) == line_start(content@, i as int),
        decreases i,
    {
        i = i - 1;
    }
    let st = if i == 0 {
        start
    } else {
        i
    };
    let n = content.len();
    let en = if end < n && n - end >= 2 && content[end] == '\r' && content[end + 1] == '\n' {
        end + 2
    } else if end < n && content[end] == '\n' {
        end + 1
    } else {
        end
    };
    let head = slice_range(content, 0, st);
    let tail = slice_range(content, en, n);
    let mut out: Vec<char> = Vec::new();
    extend_chars(&mut out, head.as_slice());
    extend_chars(&mut out, tail.as_slice());
    assert(out@ =~= block_removed(content@, start as int, end as int));
    out
}

/// What deleting a symbol from a library leaves to do: the new library text, the LCSC
/// number whose generated files go with it, and the footprint that goes with it.
#[derive(Debug, Clone, PartialEq, Eq)]
pub struct DeletePlan {
    pub content: String,
    pub lcsc_part: Option<String>,
    pub footprint_name: String,
}

/// The LCSC number that a deletion removes files for: the block's own, else the one the
/// request named, if it is not blank.
pub open spec fn deleted_lcsc(t: Seq<char>, requested: Option<Seq<char>>) -> Option<Seq<char>> {
    match property_of(t, name_lcsc_part()) {
        Some(p) => Some(p),
        None => match requested {
            Some(q) => if trim(q).len() > 0 {
                Some(trim(q))
            } else {
                None
            },
            None => None,
        },
    }
}

/// The plan for deleting symbol `name` from library text `s`, or why it cannot be done.
pub open spec fn deletion(s: Seq<char>, name: Seq<char>, source_file: Seq<char>, requested: Option<Seq<char>>) -> Result<
    (Seq<char>, Option<Seq<char>>, Seq<char>),
    Seq<char>,
> {
    match blocks_from(s, 0, 0, false, false) {
        Err(e) => Err(scan_error_message(e)),
        Ok(spans) => match first_named_from(s, spans, name, 0) {
            None => Err("Symbol "@ + name + " was not found in "@ + source_file),
            Some(k) => {
                let t = span_text(s, spans[k]);
                Ok(
                    (
                        block_removed(s, spans[k].0, spans[k].1),
                        deleted_lcsc(t, requested),
                        or_else(footprint_name_of_block(t), name),
                    ),
                )
            },
        },
    }
}

pub open spec fn opt_str_view(o: Option<String>) -> Option<Seq<char>> {
    match o {
        Some(v) => Some(v@),
        None => None,
    }
}

/// Plans the deletion of symbol `name` from the library text `content`.
pub fn plan_symbol_deletion(content: &str, name: &str, source_file: &str, requested: &Option<String>) -> (r: Result<
    DeletePlan,
    String,
>)
    ensures
        match r {
            Ok(p) => deletion(content@, name@, source_file@, opt_str_view(*requested)) == Ok::<
                (Seq<char>, Option<Seq<char>>, Seq<char>),
                Seq<char>,
            >((p.content@, opt_str_view(p.lcsc_part), p.footprint_name@)),
            Err(m) => deletion(content@, name@, source_file@, opt_str_view(*requested)) == Err::<
                (Seq<char>, Option<Seq<char>>, Seq<char>),
                Seq<char>,
            >(m@),
        },
{
    let cs = chars_of(content);
    let name_cs = chars_of(name);
    let blocks = match top_level_symbol_blocks(cs.as_slice()) {
        Ok(b) => b,
        Err(m) => return Err(m),
    };
    let ghost spans = match blocks_from(content@, 0, 0, false, false) {
        Ok(sp) => sp,
        Err(_) => Seq::empty(),
    };
    let k = match find_block(cs.as_slice(), blocks.as_slice(), name_cs.as_slice(), Ghost(spans)) {
        Some(k) => k,
        None => {
            let mut m: Vec<char> = Vec::new();
            extend_str(&mut m, "Symbol ");
            extend_str(&mut m, name);
            extend_str(&mut m, " was not found in ");
            extend_str(&mut m, source_file);
            return Err(string_from(m.as_slice()));
        },
    };
    let b = &blocks[k];
    assert(block_describes(content@, blocks@[k as int]));
    let text = slice_range(cs.as_slice(), b.start, b.end);
    let lcsc_part: Option<String> = match &b.lcsc_part {
        Some(p) => Some(string_from(p.as_slice())),
        None => match requested {
            Some(q) => {
                let t = trim_str(q.as_str());
                if !t.as_str().is_empty() {
                    Some(t)
                } else {
                    None
                }
            },
            None => None,
        },
    };
    let footprint_name = match footprint_name_from_symbol_block(text.as_slice()) {
        Some(f) => string_from(f.as_slice()),
        None => owned(name),
    };
    let updated = delete_symbol_block(cs.as_slice(), b.start, b.end);
    Ok(DeletePlan { content: string_from(updated.as_slice()), lcsc_part, footprint_name })
}

/// How many generated files went with a deleted symbol.
#[derive(Debug, Clone, Copy, Default, PartialEq, Eq)]
pub struct DeletedGeneratedAssets {
    pub footprints: usize,
    pub models: usize,
    pub checkpoint_entries: usize,
}

/// `ls` joined with `", "` between its items.
pub open spec fn join_comma(ls: Seq<Seq<char>>) -> Seq<char>
    decreases ls.len(),
{
    if ls.len() == 0 {
        Seq::empty()
    } else if ls.len() == 1 {
        ls[0]
    } else {
        join_comma(ls.drop_last()) + ", "@ + ls.last()
    }
}

/// The removed generated files, in words.
pub open spec fn delete_details(d: DeletedGeneratedAssets) -> Seq<Seq<char>> {
    let a: Seq<Seq<char>> = if d.footprints > 0 {
        seq![decimal(d.footprints as nat) + " footprint"@]
    } else {
        Seq::empty()
    };
    let b: Seq<Seq<char>> = if d.models > 0 {
        a.push(decimal(d.models as nat) + " 3D model file(s)"@)
    } else {
        a
    };
    if d.checkpoint_entries > 0 {
        b.push("checkpoint entry"@)
    } else {
        b
    }
}

/// The message of a deletion.
pub open spec fn delete_result_text(name: Seq<char>, source_file: Seq<char>, d: DeletedGeneratedAssets) -> Seq<char> {
    let details = delete_details(d);
    if details.len() == 0 {
        "Deleted "@ + name + " from "@ + source_file
    } else {
        "Deleted "@ + name + " from "@ + source_file + "; also removed "@ + join_comma(details)
    }
}

fn push_detail(details: &mut Vec<Vec<char>>, count: Option<usize>, tail: &str)
    ensures
        final(details)@.len() == old(details)@.len() + 1,
        forall|k: int| 0 <= k < old(details)@.len() ==> #[trigger] final(details)@[k] == old(details)@[k],
        final(details)@.last()@ == match count {
            Some(n) => decimal(n as nat) + tail@,
            None => tail@,
        },
{
    let mut d: Vec<char> = Vec::new();
    match count {
        Some(n) => {
            let digits = decimal_chars(n as u64);
            extend_chars(&mut d, digits.as_slice());
        },
        None => {},
    }
    extend_str(&mut d, tail);
    details.push(d);
}

/// The message that reports a deletion and the generated files removed with it.
pub fn format_delete_result(name: &str, source_file: &str, d: &DeletedGeneratedAssets) -> (r: String)
    ensures
        r@ == delete_result_text(name@, source_file@, *d),
{
    let mut details: Vec<Vec<char>> = Vec::new();
    if d.footprints > 0 {
        push_detail(&mut details, Some(d.footprints), " footprint");
    }
    if d.models > 0 {
        push_detail(&mut details, Some(d.models), " 3D model file(s)");
    }
    if d.checkpoint_entries > 0 {
        push_detail(&mut details, None, "checkpoint entry");
    }
    let ghost dv = details@.map_values(|l: Vec<char>| l@);
    assert(dv =~= delete_details(*d));
    let mut m: Vec<char> = Vec::new();
    extend_str(&mut m, "Deleted ");
    extend_str(&mut m, name);
    extend_str(&mut m, " from ");
    extend_str(&mut m, source_file);
    if details.len() > 0 {
        extend_str(&mut m, "; also removed ");
        let mut k: usize = 0;
        let ghost base = m@;
        while k < details.len()
            invariant
                k <= details@.len(),
                dv == details@.map_values(|l: Vec<char>| l@),
                m@ == base + join_comma(dv.take(k as int)),
            decreases details@.len() - k,
        {
            if k > 0 {
                extend_str(&mut m, ", ");
            }
            extend_chars(&mut m, details[k].as_slice());
            k = k + 1;
            assert(dv.take(k as int).drop_last() =~= dv.take(k - 1));
        }
        assert(dv.take(details@.len() as int) =~= dv);
    }
    string_from(m.as_slice())
}


/// The part number at the start of a checkpoint line: the text before its first tab,
/// trimmed.
pub open spec fn checkpoint_line_id(l: Seq<char>) -> Seq<char> {
    trim(split_on(l, '\t')[0])
}

/// Whether a checkpoint line belongs to a part other than `part`.
pub open spec fn keep_line(part: Seq<char>) -> spec_fn(Seq<char>) -> bool {
    |l: Seq<char>| checkpoint_line_id(l) != part
}

/// The checkpoint text without the lines of part `part`, or `None` when it has none.
pub open spec fn checkpoint_without(s: Seq<char>, part: Seq<char>) -> Option<Seq<char>> {
    let ls = lines(s);
    let kept = ls.filter(keep_line(part));
    if kept.len() == ls.len() {
        None
    } else {
        let j = join_lines(kept);
        Some(
            if j.len() == 0 {
                j
            } else {
                j.push('\n')
            },
        )
    }
}

/// The checkpoint file text without the entry of part `part`, or `None` when the file
/// holds no such entry and need not be written.
pub fn remove_checkpoint_entry(content: &str, part: &str) -> (r: Option<String>)
    ensures
        opt_str_view(r) == checkpoint_without(content@, part@),
{
    let cs = chars_of(content);
    let pc = chars_of(part);
    let ls = lines_of(cs.as_slice());
    let ghost lv = lines(content@);
    assert(ls@.map_values(|l: Vec<char>| l@) =~= lv);
    let mut kept: Vec<Vec<char>> = Vec::new();
    let mut k: usize = 0;
    while k < ls.len()
        invariant
            k <= ls@.len(),
            lv == ls@.map_values(|l: Vec<char>| l@),
            kept@.map_values(|l: Vec<char>| l@) == lv.take(k as int).filter(keep_line(part@)),
            pc@ == part@,
        decreases ls@.len() - k,
    {
        proof {
            reveal(Seq::filter);
            assert(lv.take(k + 1).drop_last() =~= lv.take(k as int));
        }
        let line = &ls[k];
        let pieces = split_chars(line.as_slice(), '\t');
        proof {
            lemma_split_prefix_nonempty(line@, '\t', line@.len() as int);
        }
        let id = trim_chars(pieces[0].as_slice());
        assert(line@ == lv[k as int]);
        assert(pieces@[0]@ == split_on(line@, '\t')[0]);
        assert(id@ == checkpoint_line_id(lv[k as int]));
        assert(lv.take(k + 1).last() == lv[k as int]);
        assert(lv.take(k + 1).filter(keep_line(part@)) == if keep_line(part@)(lv[k as int]) {
            lv.take(k as int).filter(keep_line(part@)).push(lv[k as int])
        } else {
            lv.take(k as int).filter(keep_line(part@))
        }) by {
            reveal(Seq::filter);
        }
        let ghost before = kept@.map_values(|l: Vec<char>| l@);
        if !chars_eq(id.as_slice(), pc.as_slice()) {
            let mut copy: Vec<char> = Vec::new();
            extend_chars(&mut copy, line.as_slice());
            kept.push(copy);
            assert(kept@.map_values(|l: Vec<char>| l@) =~= before.push(line@));
            assert(keep_line(part@)(lv[k as int]));
        } else {
            assert(!keep_line(part@)(lv[k as int]));
        }
        assert(kept@.map_values(|l: Vec<char>| l@) == lv.take(k + 1).filter(keep_line(part@)));
        k = k + 1;
    }
    assert(lv.take(ls@.len() as int) =~= lv);
    if kept.len() == ls.len() {
        return None;
    }
    let mut j = join_lines_chars(kept.as_slice());
    if j.len() > 0 {
        j.push('\n');
    }
    Some(string_from(j.as_slice()))
}

} // verus!
