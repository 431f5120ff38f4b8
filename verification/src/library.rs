//! The export folder's KiCad library: where each file goes, and the symbol library text,
//! kept in memory per library file until it is written.
use vstd::prelude::*;
use crate::text::{
    chars_of, contains_seq, contains_chars, extend_chars, extend_str, find_first, first_occurrence,
    str_eq, string_from, trim_right, trim_bounds,
};
use crate::paths::{file_name, file_name_chars, join, join_path};
use crate::sexpr::{paren_group_end, matching_paren_end, slice_range, lemma_group_end_after};
use crate::error::{AppError, KicadError};
use crate::pattern::{Pattern, regex_capture_groups, opt_string_view};

verus! {

/// Whether an output file was written or left as it was, and where it is.
#[derive(Debug, Clone, PartialEq, Eq)]
pub enum WriteOutcome {
    Written(String),
    Skipped(String),
}

pub open spec fn outcome_path(o: WriteOutcome) -> Seq<char> {
    match o {
        WriteOutcome::Written(p) => p@,
        WriteOutcome::Skipped(p) => p@,
    }
}

impl WriteOutcome {
    /// Whether the file was written.
    pub fn was_written(&self) -> (r: bool)
        ensures
            r == (*self is Written),
    {
        match self {
            WriteOutcome::Written(_) => true,
            WriteOutcome::Skipped(_) => false,
        }
    }

    /// The file's path.
    pub fn path(&self) -> (r: &str)
        ensures
            r@ == outcome_path(*self),
    {
        match self {
            WriteOutcome::Written(p) => p.as_str(),
            WriteOutcome::Skipped(p) => p.as_str(),
        }
    }

    /// The file's path, taken out of the outcome.
    pub fn into_path(self) -> (r: String)
        ensures
            r@ == outcome_path(self),
    {
        match self {
            WriteOutcome::Written(p) => p,
            WriteOutcome::Skipped(p) => p,
        }
    }
}

/// The text of a new, empty symbol library, without its closing bracket.
pub open spec fn library_header() -> Seq<char> {
    "(kicad_symbol_lib\n  (version 20211014)\n  (generator export)"@
}

/// `s` without its trailing `)` characters.
pub open spec fn strip_closing(s: Seq<char>) -> Seq<char>
    decreases s.len(),
{
    if s.len() > 0 && s.last() == ')' {
        strip_closing(s.drop_last())
    } else {
        s
    }
}

/// A symbol library text with one more component appended before its closing bracket.
pub open spec fn with_component(existing: Seq<char>, data: Seq<char>) -> Seq<char> {
    let base = if existing.len() == 0 {
        library_header()
    } else {
        strip_closing(trim_right(existing))
    };
    let body = base + seq!['\n'] + data;
    (if contains_seq(data, "(symbol"@) {
        body + seq!['\n', ')']
    } else {
        body
    }) + seq!['\n']
}

/// Appends component text `component_data` to the symbol library text `existing_content`.
pub fn add_component_to_content(existing_content: &str, component_data: &str) -> (r: String)
    ensures
        r@ == with_component(existing_content@, component_data@),
{
    let mut content: Vec<char> = Vec::new();
    if existing_content.is_empty() {
        extend_str(&mut content, "(kicad_symbol_lib\n  (version 20211014)\n  (generator export)");
    } else {
        let cs = chars_of(existing_content);
        let mut b = cs.len();
        assert(cs@.take(b as int) =~= cs@);
        while b > 0 && crate::text::is_whitespace(cs[b - 1])
            invariant
                b <= cs@.len(),
                trim_right(cs@) == trim_right(cs@.take(b as int)),
            decreases b,
        {
            assert(cs@.take(b as int).drop_last() =~= cs@.take(b - 1));
            b = b - 1;
        }
        assert(cs@.take(b as int) == trim_right(cs@));
        let ghost t = cs@.take(b as int);
        let mut e = b;
        while e > 0 && cs[e - 1] == ')'
            invariant
                e <= b <= cs@.len(),
                t == cs@.take(b as int),
                strip_closing(t) == strip_closing(cs@.take(e as int)),
            decreases e,
        {
            assert(cs@.take(e as int).drop_last() =~= cs@.take(e - 1));
            e = e - 1;
        }
        let kept = slice_range(cs.as_slice(), 0, e);
        extend_chars(&mut content, kept.as_slice());
        assert(kept@ =~= cs@.take(e as int));
    }
    content.push('\n');
    extend_str(&mut content, component_data);
    let data = chars_of(component_data);
    let marker = chars_of("(symbol");
    if contains_chars(data.as_slice(), marker.as_slice()) {
        content.push('\n');
        content.push(')');
    }
    content.push('\n');
    string_from(content.as_slice())
}

/// Where a symbol's block starts when it is replaced: before the spaces that indent it and
/// the line break before them.
pub open spec fn spaces_back(s: Seq<char>, i: int) -> int
    decreases i,
{
    if i > 0 && s[i - 1] == ' ' {
        spaces_back(s, i - 1)
    } else {
        i
    }
}

pub open spec fn v6_block_start(s: Seq<char>, st: int) -> int {
    let b = spaces_back(s, st);
    if b > 0 && s[b - 1] == '\n' {
        b - 1
    } else {
        b
    }
}

/// The text that opens the block of symbol `name`.
pub open spec fn symbol_search(name: Seq<char>) -> Seq<char> {
    "(symbol \""@ + name + "\""@
}

/// The library text with the block of symbol `name` replaced by `new_data`, or `None` when
/// the library has no such block.
pub open spec fn component_replaced(content: Seq<char>, name: Seq<char>, new_data: Seq<char>) -> Option<Seq<char>> {
    match first_occurrence(content, symbol_search(name)) {
        None => None,
        Some(st) => match paren_group_end(content, st) {
            None => None,
            Some(be) => {
                let bs = v6_block_start(content, st);
                let head = content.take(bs);
                Some(
                    head + (if bs > 0 && head.last() != '\n' {
                        seq!['\n']
                    } else {
                        Seq::empty()
                    }) + new_data + content.skip(be),
                )
            },
        },
    }
}

/// Symbol `name`'s block opens at `i`: the text there is `(symbol "`, the name, and `"`.
pub open spec fn opens_block_of(content: Seq<char>, i: int, name: Seq<char>) -> bool {
    crate::text::occurs_at(content, i, seq!['(', 's', 'y', 'm', 'b', 'o', 'l', ' ', '"'] + name + seq!['"'])
}

/// `out` is `content` with the text from `bs` to `be` replaced by `data` (after a line break
/// when one is needed), where symbol `name`'s block opens at `st`, at its first opening.
pub open spec fn replaced_block(content: Seq<char>, name: Seq<char>, data: Seq<char>, out: Seq<char>, bs: int, st: int, be: int) -> bool {
    &&& 0 <= bs <= st < be <= content.len()
    &&& opens_block_of(content, st, name)
    &&& forall|j: int| 0 <= j < st ==> !opens_block_of(content, j, name)
    &&& forall|j: int| bs <= j < st ==> content[j] == ' ' || content[j] == '\n'
    &&& (out == content.take(bs) + data + content.skip(be) || out == content.take(bs) + seq!['\n'] + data
        + content.skip(be))
}

proof fn lemma_spaces_back(s: Seq<char>, i: int)
    requires
        0 <= i <= s.len(),
    ensures
        0 <= spaces_back(s, i) <= i,
        forall|j: int| spaces_back(s, i) <= j < i ==> s[j] == ' ',
    decreases i,
{
    if i > 0 && s[i - 1] == ' ' {
        lemma_spaces_back(s, i - 1);
    }
}

/// Law: updating symbol `name` replaces exactly that symbol's block: the block that opens
/// with `(symbol "`, the name and its closing quote (the first such), with the spaces and
/// line break before it; everything before and after that block is kept as it was, so
/// the block of a symbol whose name merely starts with `name` is never the one replaced.
/// Without such an opening there is nothing to replace.
pub proof fn law_update_replaces_the_named_block(content: Seq<char>, name: Seq<char>, data: Seq<char>)
    ensures
        component_replaced(content, name, data) matches Some(out) ==> exists|bs: int, st: int, be: int|
            #[trigger] replaced_block(content, name, data, out, bs, st, be),
        (forall|j: int| !opens_block_of(content, j, name)) ==> component_replaced(content, name, data) is None,
{
    lemma_symbol_search_text(name);
    lemma_first_occurrence_least(content, symbol_search(name));
    if let Some(out) = component_replaced(content, name, data) {
        let st = crate::text::first_occurrence(content, symbol_search(name))->Some_0;
        lemma_opening_paren(content, st, name);
        let be = paren_group_end(content, st)->Some_0;
        lemma_group_end_after(content, st);
        lemma_spaces_back(content, st);
        let b = spaces_back(content, st);
        let bs = v6_block_start(content, st);
        assert forall|j: int| bs <= j < st implies content[j] == ' ' || content[j] == '\n' by {
            if j < b {
                assert(j == b - 1);
            }
        }
        assert forall|j: int| 0 <= j < st implies !opens_block_of(content, j, name) by {
            assert(!crate::text::occurs_at(content, j, symbol_search(name)));
        }
        assert(replaced_block(content, name, data, out, bs, st, be));
    } else {
        if !(forall|j: int| !opens_block_of(content, j, name)) {
        }
    }
    if forall|j: int| !opens_block_of(content, j, name) {
        assert(!crate::text::contains_seq(content, symbol_search(name))) by {
            if crate::text::contains_seq(content, symbol_search(name)) {
                let w = choose|i: int| crate::text::occurs_at(content, i, symbol_search(name));
                assert(!opens_block_of(content, w, name));
            }
        }
    }
}

proof fn lemma_symbol_search_text(name: Seq<char>)
    ensures
        symbol_search(name) == seq!['(', 's', 'y', 'm', 'b', 'o', 'l', ' ', '"'] + name + seq!['"'],
{
    reveal_strlit("(symbol \"");
    reveal_strlit("\"");
    assert(symbol_search(name) =~= seq!['(', 's', 'y', 'm', 'b', 'o', 'l', ' ', '"'] + name + seq!['"']);
}

proof fn lemma_opening_paren(content: Seq<char>, st: int, name: Seq<char>)
    requires
        opens_block_of(content, st, name),
    ensures
        0 <= st < content.len(),
        content[st] == '(',
{
    let opener = seq!['(', 's', 'y', 'm', 'b', 'o', 'l', ' ', '"'] + name + seq!['"'];
    assert(content.subrange(st, st + opener.len())[0] == opener[0]);
}

proof fn lemma_first_occurrence_least(s: Seq<char>, pat: Seq<char>)
    ensures
        crate::text::first_occurrence(s, pat) matches Some(st) ==> crate::text::occurs_at(s, st, pat) && forall|k: int|
            0 <= k < st ==> !crate::text::occurs_at(s, k, pat),
        crate::text::first_occurrence(s, pat) is None <==> !crate::text::contains_seq(s, pat),
{
    reveal(crate::text::first_occurrence);
    if crate::text::contains_seq(s, pat) {
        let w = choose|i: int| crate::text::occurs_at(s, i, pat);
        let p = |i: int| crate::text::occurs_at(s, i, pat);
        assert(p(w));
        crate::sexpr::lemma_least(p, 0, w);
        let m = choose|m: int| 0 <= m <= w && #[trigger] p(m) && forall|k: int| 0 <= k < m ==> !#[trigger] p(k);
        assert forall|k: int| 0 <= k < m implies !crate::text::occurs_at(s, k, pat) by {
            assert(!p(k));
        }
        assert(crate::text::occurs_at(s, m, pat));
    }
}

/// Replaces the block of symbol `component_name` in a symbol library text with `new_data`.
#[verifier::rlimit(40)]
pub fn update_component_in_content(content: &str, component_name: &str, new_data: &str) -> (r: Result<
    String,
    AppError,
>)
    ensures
        match r {
            Ok(v) => component_replaced(content@, component_name@, new_data@) == Some(v@),
            Err(e) => component_replaced(content@, component_name@, new_data@) is None && (e matches AppError::Kicad(
                KicadError::SymbolExport(m),
            ) && m@ == "Component "@ + component_name@ + " not found in library"@),
        },
{
    let cs = chars_of(content);
    let mut search: Vec<char> = Vec::new();
    extend_str(&mut search, "(symbol \"");
    extend_str(&mut search, component_name);
    extend_str(&mut search, "\"");
    assert(search@ == symbol_search(component_name@));
    match find_first(cs.as_slice(), search.as_slice()) {
        Some(st) => {
            proof {
                reveal_strlit("(symbol \"");
                assert(search@[0] == '(');
                assert(cs@.subrange(st as int, st + search@.len()) == search@);
                assert(cs@[st as int] == cs@.subrange(st as int, st + search@.len())[0]);
            }
            match matching_paren_end(cs.as_slice(), st) {
                Some(be) => {
                    proof {
                        lemma_group_end_after(cs@, st as int);
                    }
                    let mut bs = st;
                    while bs > 0 && cs[bs - 1] == ' '
                        invariant
                            bs <= st < cs@.len(),
                            spaces_back(cs@, st as int) == spaces_back(cs@, bs as int),
                        decreases bs,
                    {
                        bs = bs - 1;
                    }
                    if bs > 0 && cs[bs - 1] == '\n' {
                        bs = bs - 1;
                    }
                    let mut out: Vec<char> = Vec::new();
                    let head = slice_range(cs.as_slice(), 0, bs);
                    extend_chars(&mut out, head.as_slice());
                    if bs > 0 && head[bs - 1] != '\n' {
                        out.push('\n');
                    }
                    extend_str(&mut out, new_data);
                    let tail = slice_range(cs.as_slice(), be, cs.len());
                    extend_chars(&mut out, tail.as_slice());
                    assert(head@ =~= cs@.take(bs as int));
                    assert(tail@ =~= cs@.skip(be as int));
                    return Ok(string_from(out.as_slice()));
                },
                None => {},
            }
        },
        None => {},
    }
    let mut m: Vec<char> = Vec::new();
    extend_str(&mut m, "Component ");
    extend_str(&mut m, component_name);
    extend_str(&mut m, " not found in library");
    Err(AppError::Kicad(KicadError::SymbolExport(string_from(m.as_slice()))))
}

/// The pattern that finds the names of the symbols of a library.
pub open spec fn symbol_name_pattern() -> Seq<char> {
    "\\(symbol\\s+\"([^\"]+)\""@
}

/// The names captured by `symbol_name_pattern` in `content`, in order.
pub open spec fn captured_names(groups: Seq<Option<Seq<char>>>) -> Seq<Seq<char>>
    decreases groups.len(),
{
    if groups.len() == 0 {
        Seq::empty()
    } else {
        let prev = captured_names(groups.drop_last());
        match groups.last() {
            Some(n) => prev.push(n),
            None => prev,
        }
    }
}

/// The names of the symbols declared in a symbol library text, as the name pattern finds
/// them; none when the pattern does not compile.
pub open spec fn names_in(content: Seq<char>) -> Seq<Seq<char>> {
    if crate::pattern::regex_compiles(symbol_name_pattern()) {
        captured_names(regex_capture_groups(symbol_name_pattern(), content, 1))
    } else {
        Seq::empty()
    }
}

/// The names of the symbols declared in a symbol library text; empty when the pattern does
/// not compile.
pub fn collect_component_names(content: &str) -> (r: Vec<String>)
    ensures
        crate::pattern::regex_compiles(symbol_name_pattern()) ==> r@.map_values(|s: String| s@)
            == captured_names(regex_capture_groups(symbol_name_pattern(), content@, 1)),
        !crate::pattern::regex_compiles(symbol_name_pattern()) ==> r@.len() == 0,
{
    let mut names: Vec<String> = Vec::new();
    match Pattern::compile("\\(symbol\\s+\"([^\"]+)\"") {
        None => {},
        Some(p) => {
            let groups = p.capture_groups(content, 1);
            let ghost gv = groups@.map_values(|o: Option<String>| opt_string_view(o));
            let mut rest = groups;
            let ghost orig = rest@;
            let ghost mut n: int = 0;
            while rest.len() > 0
                invariant
                    0 <= n <= orig.len(),
                    rest@ == orig.skip(n),
                    gv == orig.map_values(|o: Option<String>| opt_string_view(o)),
                    names@.map_values(|s: String| s@) == captured_names(gv.take(n)),
                decreases rest.len(),
            {
                let g = rest.remove(0);
                assert(g == orig[n]);
                assert(gv.take(n + 1).drop_last() =~= gv.take(n));
                let ghost before = names@.map_values(|s: String| s@);
                match g {
                    Some(name) => {
                        names.push(name);
                        assert(names@.map_values(|s: String| s@) =~= before.push(gv[n]->0));
                    },
                    None => {},
                }
                proof {
                    n = n + 1;
                    assert(rest@ =~= orig.skip(n));
                }
            }
            assert(gv.take(orig.len() as int) =~= gv);
        },
    }
    names
}

/// Whether `names` holds `name`.
pub fn names_contain(names: &Vec<String>, name: &str) -> (r: bool)
    ensures
        r == names@.map_values(|s: String| s@).contains(name@),
{
    let ghost nv = names@.map_values(|s: String| s@);
    let mut k: usize = 0;
    while k < names.len()
        invariant
            k <= names@.len(),
            nv == names@.map_values(|s: String| s@),
            forall|j: int| 0 <= j < k ==> nv[j] != name@,
        decreases names@.len() - k,
    {
        assert(nv[k as int] == names@[k as int]@);
        if str_eq(names[k].as_str(), name) {
            return true;
        }
        k = k + 1;
    }
    false
}

/// A symbol library held in memory: its text, whether it changed since it was last written,
/// and the names of its symbols.
#[derive(Debug, Clone, PartialEq, Eq)]
pub struct SymbolLibrarySession {
    pub content: String,
    pub dirty: bool,
    pub component_names: Vec<String>,
}

pub type SessionView = (Seq<char>, bool, Seq<Seq<char>>);

pub open spec fn session_view(s: SymbolLibrarySession) -> SessionView {
    (s.content@, s.dirty, s.component_names@.map_values(|n: String| n@))
}

/// The export folder's library, and the symbol libraries held in memory.
pub struct LibraryManager {
    output_path: String,
    lib_name: String,
    overwrite: bool,
    sessions: Vec<(String, SymbolLibrarySession)>,
}

/// The library's name: the output folder's own name, or `export`.
pub open spec fn library_name(output_path: Seq<char>) -> Seq<char> {
    match file_name(output_path) {
        Some(n) => n,
        None => "export"@,
    }
}

pub open spec fn sessions_view(v: Seq<(String, SymbolLibrarySession)>) -> Seq<(Seq<char>, SessionView)> {
    v.map_values(|e: (String, SymbolLibrarySession)| (e.0@, session_view(e.1)))
}

/// The position of the session for `path`, searching from `k`.
pub open spec fn session_index(s: Seq<(Seq<char>, SessionView)>, path: Seq<char>, k: int) -> Option<int>
    decreases s.len() - k,
{
    if k < 0 || k >= s.len() {
        None
    } else if s[k].0 == path {
        Some(k)
    } else {
        session_index(s, path, k + 1)
    }
}

/// The session for a symbol library after staging component `name` with text `data`: an
/// existing component is replaced only when overwriting, a new one is appended; `None` when
/// the component to replace has no block in the text.
pub open spec fn staged(s: SessionView, name: Seq<char>, data: Seq<char>, overwrite: bool) -> Option<SessionView> {
    if s.2.contains(name) {
        if overwrite {
            match component_replaced(s.0, name, data) {
                Some(c) => Some((c, true, s.2)),
                None => None,
            }
        } else {
            Some(s)
        }
    } else {
        Some((with_component(s.0, data), true, s.2.push(name)))
    }
}

/// Once a component has been staged in a symbol library, the library knows its name, and
/// staging it again without overwriting leaves the library as it is, whatever text is
/// offered the second time.
pub proof fn law_restage_without_overwrite_keeps(
    s: SessionView,
    name: Seq<char>,
    data: Seq<char>,
    again: Seq<char>,
    overwrite: bool,
)
    requires
        staged(s, name, data, overwrite) is Some,
    ensures
        ({
            let t = staged(s, name, data, overwrite)->0;
            t.2.contains(name) && staged(t, name, again, false) == Some(t)
        }),
{
    if !s.2.contains(name) {
        assert(s.2.push(name)[s.2.len() as int] == name);
    }
}

/// The sessions with every one held as written.
pub open spec fn cleaned(s: Seq<(Seq<char>, SessionView)>) -> Seq<(Seq<char>, SessionView)> {
    s.map_values(|e: (Seq<char>, SessionView)| (e.0, (e.1.0, false, e.1.2)))
}

/// The paths and texts of the sessions that changed since they were last written.
pub open spec fn dirty_sessions(s: Seq<(Seq<char>, SessionView)>) -> Seq<(Seq<char>, Seq<char>)>
    decreases s.len(),
{
    if s.len() == 0 {
        Seq::empty()
    } else {
        let prev = dirty_sessions(s.drop_last());
        if s.last().1.1 {
            prev.push((s.last().0, s.last().1.0))
        } else {
            prev
        }
    }
}

/// The path `output/<lib>.<suffix>/<name>.<ext>`.
pub open spec fn asset_path(output: Seq<char>, lib: Seq<char>, folder_ext: Seq<char>, name: Seq<char>, ext: Seq<char>) -> Seq<char> {
    join(join(output, lib + folder_ext), name + ext)
}

fn concat2(a: &str, b: &str) -> (r: String)
    ensures
        r@ == a@ + b@,
{
    let mut v: Vec<char> = Vec::new();
    extend_str(&mut v, a);
    extend_str(&mut v, b);
    string_from(v.as_slice())
}

impl LibraryManager {
    pub closed spec fn output_spec(&self) -> Seq<char> {
        self.output_path@
    }

    pub closed spec fn lib_name_spec(&self) -> Seq<char> {
        self.lib_name@
    }

    pub closed spec fn overwrite_spec(&self) -> bool {
        self.overwrite
    }

    /// The symbol libraries held in memory, by path.
    pub closed spec fn sessions(&self) -> Seq<(Seq<char>, SessionView)> {
        sessions_view(self.sessions@)
    }

    /// A manager for the library in folder `output_path` that keeps existing files.
    pub fn new(output_path: &str) -> (r: Self)
        ensures
            r.output_spec() == output_path@,
            r.lib_name_spec() == library_name(output_path@),
            !r.overwrite_spec(),
            r.sessions().len() == 0,
    {
        LibraryManager::with_overwrite(output_path, false)
    }

    /// A manager for the library in folder `output_path`, named after the folder.
    pub fn with_overwrite(output_path: &str, overwrite: bool) -> (r: Self)
        ensures
            r.output_spec() == output_path@,
            r.lib_name_spec() == library_name(output_path@),
            r.overwrite_spec() == overwrite,
            r.sessions().len() == 0,
    {
        let p = chars_of(output_path);
        let lib_name = match file_name_chars(p.as_slice()) {
            Some(n) => string_from(n.as_slice()),
            None => "export".to_owned(),
        };
        let r = LibraryManager { output_path: output_path.to_owned(), lib_name, overwrite, sessions: Vec::new() };
        assert(r.sessions() =~= Seq::<(Seq<char>, SessionView)>::empty());
        r
    }

    /// The library's name.
    pub fn lib_name(&self) -> (r: &str)
        ensures
            r@ == self.lib_name_spec(),
    {
        self.lib_name.as_str()
    }

    /// The library's folder.
    pub fn output_path(&self) -> (r: &str)
        ensures
            r@ == self.output_spec(),
    {
        self.output_path.as_str()
    }

    /// Whether existing files are replaced.
    pub fn overwrite_enabled(&self) -> (r: bool)
        ensures
            r == self.overwrite_spec(),
    {
        self.overwrite
    }

    /// Whether a file is written, given whether it already exists.
    pub fn should_write_file(&self, exists: bool) -> (r: bool)
        ensures
            r == (self.overwrite_spec() || !exists),
    {
        self.should_write_file_with_overwrite(exists, self.overwrite)
    }

    /// Whether a file is written when `overwrite` says whether to replace it.
    pub fn should_write_file_with_overwrite(&self, exists: bool, overwrite: bool) -> (r: bool)
        ensures
            r == (overwrite || !exists),
    {
        overwrite || !exists
    }

    fn asset(&self, folder_ext: &str, name: &str, ext: &str) -> (r: String)
        ensures
            r@ == asset_path(self.output_spec(), self.lib_name_spec(), folder_ext@, name@, ext@),
    {
        let folder = concat2(self.lib_name.as_str(), folder_ext);
        let dir = join_path(self.output_path.as_str(), folder.as_str());
        let file = concat2(name, ext);
        join_path(dir.as_str(), file.as_str())
    }

    /// `<output>/<lib>.3dshapes/<model>.wrl`.
    pub fn get_wrl_path(&self, model_name: &str) -> (r: String)
        ensures
            r@ == asset_path(self.output_spec(), self.lib_name_spec(), ".3dshapes"@, model_name@, ".wrl"@),
    {
        self.asset(".3dshapes", model_name, ".wrl")
    }

    /// `<output>/<lib>.pretty/<footprint>.kicad_mod`.
    pub fn get_footprint_path(&self, footprint_name: &str) -> (r: String)
        ensures
            r@ == asset_path(self.output_spec(), self.lib_name_spec(), ".pretty"@, footprint_name@, ".kicad_mod"@),
    {
        self.asset(".pretty", footprint_name, ".kicad_mod")
    }

    /// `<output>/<lib>.3dshapes/<model>.step`.
    pub fn get_step_path(&self, model_name: &str) -> (r: String)
        ensures
            r@ == asset_path(self.output_spec(), self.lib_name_spec(), ".3dshapes"@, model_name@, ".step"@),
    {
        self.asset(".3dshapes", model_name, ".step")
    }

    /// `<output>/<lib>.kicad_sym`.
    pub fn get_symbol_lib_path(&self) -> (r: String)
        ensures
            r@ == join(self.output_spec(), self.lib_name_spec() + ".kicad_sym"@),
    {
        let f = concat2(self.lib_name.as_str(), ".kicad_sym");
        join_path(self.output_path.as_str(), f.as_str())
    }

    /// The folders that the library needs: its own, its footprints' and its models'.
    pub fn directories(&self) -> (r: (String, String, String))
        ensures
            r.0@ == self.output_spec(),
            r.1@ == join(self.output_spec(), self.lib_name_spec() + ".pretty"@),
            r.2@ == join(self.output_spec(), self.lib_name_spec() + ".3dshapes"@),
    {
        let a = self.output_path.clone();
        let pf = concat2(self.lib_name.as_str(), ".pretty");
        let b = join_path(self.output_path.as_str(), pf.as_str());
        let sf = concat2(self.lib_name.as_str(), ".3dshapes");
        let c = join_path(self.output_path.as_str(), sf.as_str());
        (a, b, c)
    }

    fn outcome(path: String, write: bool) -> (r: WriteOutcome)
        ensures
            outcome_path(r) == path@,
            r is Written <==> write,
    {
        if write {
            WriteOutcome::Written(path)
        } else {
            WriteOutcome::Skipped(path)
        }
    }

    /// What becomes of footprint `footprint_name`, given whether its file exists: written
    /// unless it exists and `overwrite` is off.
    pub fn write_footprint_with_status(&self, footprint_name: &str, exists: bool, overwrite: bool) -> (r: WriteOutcome)
        ensures
            outcome_path(r) == asset_path(self.output_spec(), self.lib_name_spec(), ".pretty"@, footprint_name@, ".kicad_mod"@),
            r is Written <==> (overwrite || !exists),
    {
        let p = self.get_footprint_path(footprint_name);
        LibraryManager::outcome(p, self.should_write_file_with_overwrite(exists, overwrite))
    }

    /// Where footprint `footprint_name` goes, and whether it is written without overwriting.
    pub fn write_footprint(&self, footprint_name: &str, exists: bool) -> (r: WriteOutcome)
        ensures
            outcome_path(r) == asset_path(self.output_spec(), self.lib_name_spec(), ".pretty"@, footprint_name@, ".kicad_mod"@),
            r is Written <==> !exists,
    {
        self.write_footprint_with_status(footprint_name, exists, false)
    }

    /// What becomes of the VRML model `model_name`, given whether its file exists.
    pub fn write_wrl_model_with_status(&self, model_name: &str, exists: bool, overwrite: bool) -> (r: WriteOutcome)
        ensures
            outcome_path(r) == asset_path(self.output_spec(), self.lib_name_spec(), ".3dshapes"@, model_name@, ".wrl"@),
            r is Written <==> (overwrite || !exists),
    {
        let p = self.get_wrl_path(model_name);
        LibraryManager::outcome(p, self.should_write_file_with_overwrite(exists, overwrite))
    }

    /// Where the VRML model goes, and whether it is written without overwriting.
    pub fn write_wrl_model(&self, model_name: &str, exists: bool) -> (r: WriteOutcome)
        ensures
            outcome_path(r) == asset_path(self.output_spec(), self.lib_name_spec(), ".3dshapes"@, model_name@, ".wrl"@),
            r is Written <==> !exists,
    {
        self.write_wrl_model_with_status(model_name, exists, false)
    }

    /// What becomes of the STEP model `model_name`, given whether its file exists.
    pub fn write_step_model_with_status(&self, model_name: &str, exists: bool, overwrite: bool) -> (r: WriteOutcome)
        ensures
            outcome_path(r) == asset_path(self.output_spec(), self.lib_name_spec(), ".3dshapes"@, model_name@, ".step"@),
            r is Written <==> (overwrite || !exists),
    {
        let p = self.get_step_path(model_name);
        LibraryManager::outcome(p, self.should_write_file_with_overwrite(exists, overwrite))
    }

    /// Where the STEP model goes, and whether it is written without overwriting.
    pub fn write_step_model(&self, model_name: &str, exists: bool) -> (r: WriteOutcome)
        ensures
            outcome_path(r) == asset_path(self.output_spec(), self.lib_name_spec(), ".3dshapes"@, model_name@, ".step"@),
            r is Written <==> !exists,
    {
        self.write_step_model_with_status(model_name, exists, false)
    }

    /// What becomes of both files of a 3D model, without overwriting: the VRML file, and
    /// the STEP file, whose path is given either way and which is written only when there
    /// is STEP data and no such file yet.
    pub fn write_3d_model(&self, model_name: &str, wrl_exists: bool, has_step_data: bool, step_exists: bool) -> (r: (
        WriteOutcome,
        WriteOutcome,
    ))
        ensures
            outcome_path(r.0) == asset_path(self.output_spec(), self.lib_name_spec(), ".3dshapes"@, model_name@, ".wrl"@),
            r.0 is Written <==> !wrl_exists,
            outcome_path(r.1) == asset_path(self.output_spec(), self.lib_name_spec(), ".3dshapes"@, model_name@, ".step"@),
            r.1 is Written <==> (has_step_data && !step_exists),
    {
        let w = self.write_wrl_model_with_status(model_name, wrl_exists, false);
        let p = self.get_step_path(model_name);
        let s = LibraryManager::outcome(p, has_step_data && self.should_write_file_with_overwrite(step_exists, false));
        (w, s)
    }

    fn find_session(&self, lib_path: &str) -> (r: Option<usize>)
        ensures
            match r {
                Some(k) => session_index(self.sessions(), lib_path@, 0) == Some(k as int) && k < self.sessions@.len()
                    && self.sessions()[k as int].0 == lib_path@,
                None => session_index(self.sessions(), lib_path@, 0) is None,
            },
    {
        let mut k: usize = 0;
        while k < self.sessions.len()
            invariant
                k <= self.sessions@.len(),
                session_index(self.sessions(), lib_path@, 0) == session_index(self.sessions(), lib_path@, k as int),
            decreases self.sessions@.len() - k,
        {
            assert(self.sessions()[k as int].0 == self.sessions@[k as int].0@);
            if str_eq(self.sessions[k].0.as_str(), lib_path) {
                return Some(k);
            }
            k = k + 1;
        }
        None
    }

    /// Whether symbol library `lib_path` is held in memory.
    pub fn has_session(&self, lib_path: &str) -> (r: bool)
        ensures
            r == session_index(self.sessions(), lib_path@, 0) is Some,
    {
        self.find_session(lib_path).is_some()
    }

    /// Holds symbol library `lib_path` in memory with the text it has on disk (empty when
    /// there is no file), unless it is held already.
    pub fn open_session(&mut self, lib_path: &str, file_content: &str)
        ensures
            final(self).output_spec() == old(self).output_spec(),
            final(self).lib_name_spec() == old(self).lib_name_spec(),
            final(self).overwrite_spec() == old(self).overwrite_spec(),
            session_index(old(self).sessions(), lib_path@, 0) is Some ==> final(self).sessions() == old(self).sessions(),
            session_index(old(self).sessions(), lib_path@, 0) is None ==> {
                &&& final(self).sessions().len() == old(self).sessions().len() + 1
                &&& final(self).sessions().drop_last() == old(self).sessions()
                &&& final(self).sessions().last().0 == lib_path@
                &&& final(self).sessions().last().1.0 == file_content@
                &&& !final(self).sessions().last().1.1
                &&& final(self).sessions().last().1.2 == names_in(file_content@)
            },
    {
        if self.has_session(lib_path) {
            return;
        }
        let names = collect_component_names(file_content);
        let session = SymbolLibrarySession { content: file_content.to_owned(), dirty: false, component_names: names };
        let ghost before = self.sessions();
        self.sessions.push((lib_path.to_owned(), session));
        assert(self.sessions() =~= before.push((lib_path@, session_view(self.sessions@.last().1))));
    }

    /// Stages component `name` with text `data` in the held symbol library `lib_path` (see
    /// `staged`); fails when a component to replace has no block in the text.
    pub fn stage_or_update_component(&mut self, lib_path: &str, name: &str, data: &str, overwrite: bool) -> (r: Result<
        (),
        AppError,
    >)
        requires
            session_index(old(self).sessions(), lib_path@, 0) is Some,
        ensures
            final(self).output_spec() == old(self).output_spec(),
            final(self).lib_name_spec() == old(self).lib_name_spec(),
            final(self).overwrite_spec() == old(self).overwrite_spec(),
            ({
                let k = session_index(old(self).sessions(), lib_path@, 0)->0;
                match staged(old(self).sessions()[k].1, name@, data@, overwrite) {
                    Some(sv) => r is Ok && final(self).sessions() == old(self).sessions().update(k, (lib_path@, sv)),
                    None => final(self).sessions() == old(self).sessions() && (r matches Err(AppError::Kicad(
                        KicadError::SymbolExport(m),
                    )) && m@ == "Component "@ + name@ + " not found in library"@),
                }
            }),
    {
        let k = match self.find_session(lib_path) {
            Some(k) => k,
            None => return Ok(()),
        };
        let ghost before = self.sessions();
        assert(before[k as int].0 == lib_path@);
        let exists = names_contain(&self.sessions[k].1.component_names, name);
        if exists && overwrite {
            let updated = update_component_in_content(self.sessions[k].1.content.as_str(), name, data);
            match updated {
                Ok(c) => {
                    let (p, mut sess) = self.sessions.remove(k);
                    sess.content = c;
                    sess.dirty = true;
                    self.sessions.insert(k, (p, sess));
                    assert(self.sessions() =~= before.update(k as int, (lib_path@, staged(before[k as int].1, name@, data@, overwrite)->0)));
                    Ok(())
                },
                Err(e) => Err(e),
            }
        } else if !exists {
            let c = add_component_to_content(self.sessions[k].1.content.as_str(), data);
            let (p, mut sess) = self.sessions.remove(k);
            sess.content = c;
            sess.dirty = true;
            sess.component_names.push(name.to_owned());
            self.sessions.insert(k, (p, sess));
            assert(self.sessions()[k as int].1.2 =~= before[k as int].1.2.push(name@));
            assert(self.sessions() =~= before.update(k as int, (lib_path@, staged(before[k as int].1, name@, data@, overwrite)->0)));
            Ok(())
        } else {
            Ok(())
        }
    }

    /// The held symbol libraries that changed since they were last written, with their
    /// text, in the order they were opened.
    pub fn flush_symbol_libraries(&self) -> (r: Vec<(String, String)>)
        ensures
            r@.map_values(|e: (String, String)| (e.0@, e.1@)) == dirty_sessions(self.sessions()),
    {
        let mut out: Vec<(String, String)> = Vec::new();
        let mut k: usize = 0;
        while k < self.sessions.len()
            invariant
                k <= self.sessions@.len(),
                out@.map_values(|e: (String, String)| (e.0@, e.1@)) == dirty_sessions(self.sessions().take(k as int)),
            decreases self.sessions@.len() - k,
        {
            let ghost before = out@.map_values(|e: (String, String)| (e.0@, e.1@));
            assert(self.sessions().take(k + 1).drop_last() =~= self.sessions().take(k as int));
            assert(self.sessions().take(k + 1).last() == self.sessions()[k as int]);
            if self.sessions[k].1.dirty {
                out.push((self.sessions[k].0.clone(), self.sessions[k].1.content.clone()));
                assert(out@.map_values(|e: (String, String)| (e.0@, e.1@)) =~= before.push(
                    (self.sessions()[k as int].0, self.sessions()[k as int].1.0),
                ));
            }
            k = k + 1;
        }
        assert(self.sessions().take(self.sessions@.len() as int) =~= self.sessions());
        out
    }

    /// Records that the held symbol library `lib_path` was written.
    pub fn mark_written(&mut self, lib_path: &str)
        ensures
            final(self).output_spec() == old(self).output_spec(),
            final(self).lib_name_spec() == old(self).lib_name_spec(),
            final(self).overwrite_spec() == old(self).overwrite_spec(),
            match session_index(old(self).sessions(), lib_path@, 0) {
                Some(k) => final(self).sessions() == old(self).sessions().update(
                    k,
                    (lib_path@, (old(self).sessions()[k].1.0, false, old(self).sessions()[k].1.2)),
                ),
                None => final(self).sessions() == old(self).sessions(),
            },
    {
        match self.find_session(lib_path) {
            Some(k) => {
                let ghost before = self.sessions();
                let (p, mut sess) = self.sessions.remove(k);
                sess.dirty = false;
                self.sessions.insert(k, (p, sess));
                assert(self.sessions() =~= before.update(
                    k as int,
                    (lib_path@, (before[k as int].1.0, false, before[k as int].1.2)),
                ));
            },
            None => {},
        }
    }

    /// Marks every held symbol library as written.
    fn mark_all_written(&mut self)
        ensures
            final(self).output_spec() == old(self).output_spec(),
            final(self).lib_name_spec() == old(self).lib_name_spec(),
            final(self).overwrite_spec() == old(self).overwrite_spec(),
            final(self).sessions() == cleaned(old(self).sessions()),
    {
        let ghost start = self.sessions();
        let mut k: usize = 0;
        while k < self.sessions.len()
            invariant
                k <= self.sessions@.len(),
                self.sessions@.len() == start.len(),
                self.output_spec() == old(self).output_spec(),
                self.lib_name_spec() == old(self).lib_name_spec(),
                self.overwrite_spec() == old(self).overwrite_spec(),
                forall|i: int| 0 <= i < k ==> #[trigger] self.sessions()[i] == cleaned(start)[i],
                forall|i: int| k <= i < start.len() ==> #[trigger] self.sessions()[i] == start[i],
            decreases self.sessions@.len() - k,
        {
            let ghost before = self.sessions();
            let (p, mut sess) = self.sessions.remove(k);
            sess.dirty = false;
            self.sessions.insert(k, (p, sess));
            assert(self.sessions() =~= before.update(
                k as int,
                (before[k as int].0, (before[k as int].1.0, false, before[k as int].1.2)),
            ));
            k = k + 1;
        }
        assert(self.sessions() =~= cleaned(start));
    }

    /// Stages component `name` in the held symbol library `lib_path` (see
    /// `stage_or_update_component`), then gives the libraries to write (see
    /// `flush_symbol_libraries`) and holds every library as written.
    pub fn add_or_update_component(&mut self, lib_path: &str, name: &str, data: &str, overwrite: bool) -> (r: Result<
        Vec<(String, String)>,
        AppError,
    >)
        requires
            session_index(old(self).sessions(), lib_path@, 0) is Some,
        ensures
            final(self).output_spec() == old(self).output_spec(),
            final(self).lib_name_spec() == old(self).lib_name_spec(),
            final(self).overwrite_spec() == old(self).overwrite_spec(),
            ({
                let k = session_index(old(self).sessions(), lib_path@, 0)->0;
                match staged(old(self).sessions()[k].1, name@, data@, overwrite) {
                    Some(sv) => {
                        let after = old(self).sessions().update(k, (lib_path@, sv));
                        &&& r matches Ok(files) && files@.map_values(|e: (String, String)| (e.0@, e.1@))
                            == dirty_sessions(after)
                        &&& final(self).sessions() == cleaned(after)
                    },
                    None => final(self).sessions() == old(self).sessions() && (r matches Err(AppError::Kicad(
                        KicadError::SymbolExport(m),
                    )) && m@ == "Component "@ + name@ + " not found in library"@),
                }
            }),
    {
        match self.stage_or_update_component(lib_path, name, data, overwrite) {
            Err(e) => Err(e),
            Ok(()) => {
                let files = self.flush_symbol_libraries();
                self.mark_all_written();
                Ok(files)
            },
        }
    }

    /// Holds `content`, just written to symbol library `lib_path`, as that library's text.
    pub fn replace_symbol_session_content(&mut self, lib_path: &str, content: &str)
        ensures
            final(self).output_spec() == old(self).output_spec(),
            final(self).lib_name_spec() == old(self).lib_name_spec(),
            final(self).overwrite_spec() == old(self).overwrite_spec(),
            ({
                let sv = final(self).sessions();
                let k = match session_index(old(self).sessions(), lib_path@, 0) {
                    Some(k) => k,
                    None => old(self).sessions().len() as int,
                };
                &&& sv.len() == if session_index(old(self).sessions(), lib_path@, 0) is Some {
                    old(self).sessions().len()
                } else {
                    old(self).sessions().len() + 1
                }
                &&& forall|j: int| 0 <= j < old(self).sessions().len() && j != k ==> #[trigger] sv[j] == old(self).sessions()[j]
                &&& sv[k].0 == lib_path@
                &&& sv[k].1.0 == content@
                &&& !sv[k].1.1
                &&& sv[k].1.2 == names_in(content@)
            }),
    {
        let names = collect_component_names(content);
        let sess = SymbolLibrarySession { content: content.to_owned(), dirty: false, component_names: names };
        let ghost before = self.sessions();
        match self.find_session(lib_path) {
            Some(k) => {
                self.sessions.remove(k);
                self.sessions.insert(k, (lib_path.to_owned(), sess));
                assert(forall|j: int| 0 <= j < before.len() && j != k ==> #[trigger] self.sessions()[j] == before[j]);
            },
            None => {
                self.sessions.push((lib_path.to_owned(), sess));
                assert(forall|j: int| 0 <= j < before.len() ==> #[trigger] self.sessions()[j] == before[j]);
            },
        }
    }

    /// The new text of a symbol library whose file holds `file_content` (empty when there is
    /// no file) once component text `data` is appended.
    pub fn add_component(&self, file_content: &str, data: &str) -> (r: String)
        ensures
            r@ == with_component(file_content@, data@),
    {
        add_component_to_content(file_content, data)
    }

    /// The new text of a symbol library whose file holds `file_content` once the block of
    /// `name` is replaced by `new_data`.
    pub fn update_component(&self, file_content: &str, name: &str, new_data: &str) -> (r: Result<String, AppError>)
        ensures
            match r {
                Ok(v) => component_replaced(file_content@, name@, new_data@) == Some(v@),
                Err(e) => component_replaced(file_content@, name@, new_data@) is None && (e matches AppError::Kicad(
                    KicadError::SymbolExport(m),
                ) && m@ == "Component "@ + name@ + " not found in library"@),
            },
    {
        update_component_in_content(file_content, name, new_data)
    }

    /// Whether component `name` is in symbol library `lib_path`: as held in memory, or else
    /// as the file's text `file_content` has it (`None` when there is no file).
    pub fn component_exists(&self, lib_path: &str, name: &str, file_content: Option<&str>) -> (r: bool)
        ensures
            match session_index(self.sessions(), lib_path@, 0) {
                Some(k) => r == self.sessions()[k].1.2.contains(name@),
                None => match file_content {
                    None => !r,
                    Some(c) => r == names_in(c@).contains(name@),
                },
            },
    {
        match self.find_session(lib_path) {
            Some(k) => {
                let names = &self.sessions[k].1.component_names;
                assert(self.sessions()[k as int].1.2 == names@.map_values(|s: String| s@));
                names_contain(names, name)
            },
            None => match file_content {
                None => false,
                Some(c) => {
                    let names = collect_component_names(c);
                    names_contain(&names, name)
                },
            },
        }
    }
}

} // verus!
