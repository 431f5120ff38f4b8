//! Turning scanned library files into the list of imported parts.
use vstd::prelude::*;
use crate::text::{
    trim, trim_str, chars_of, string_from, extend_chars, extend_str, str_eq, chars_eq, split_on,
    split_chars, lower_seq, lower_chars, contains_seq, contains_chars, ends_with,
    ends_with_chars, seq_lt, str_lt, chars_lt, lemma_split_prefix_nonempty, starts_with,
    starts_with_chars,
};
use crate::paths::{extension, file_stem, file_name, extension_chars, file_stem_chars, file_name_chars};
use crate::imported_symbols::{
    ImportedModel, ImportedSymbol, ImportedSymbolsResponse, LibraryFile, LibrarySource,
    normalized_lcsc, normalize_lcsc_part, is_footprint_file, footprint_item_for, symbol_item_for,
    kw_footprint, parse_kicad_library_file, blocks_from, scan_error_message,
};
use crate::sexpr::head_string;

verus! {

/// The LCSC numbers of `items`, in order.
pub open spec fn lcsc_parts(items: Seq<ImportedSymbol>) -> Seq<Seq<char>> {
    items.map_values(|it: ImportedSymbol| it.lcsc_part@)
}

/// The non-empty texts of `ps`, each kept where it first occurs.
pub open spec fn first_occurrences(ps: Seq<Seq<char>>) -> Seq<Seq<char>>
    decreases ps.len(),
{
    if ps.len() == 0 {
        Seq::empty()
    } else {
        let prev = first_occurrences(ps.drop_last());
        let x = ps.last();
        if x.len() == 0 || prev.contains(x) {
            prev
        } else {
            prev.push(x)
        }
    }
}

/// The distinct non-empty LCSC numbers of `items`, in the order in which they first occur.
pub fn unique_lcsc_parts(items: &[ImportedSymbol]) -> (r: Vec<String>)
    ensures
        r@.map_values(|s: String| s@) == first_occurrences(lcsc_parts(items@)),
{
    let ghost ps = lcsc_parts(items@);
    let mut out: Vec<String> = Vec::new();
    let mut k: usize = 0;
    while k < items.len()
        invariant
            k <= items.len(),
            ps == lcsc_parts(items@),
            out@.map_values(|s: String| s@) == first_occurrences(ps.take(k as int)),
        decreases items.len() - k,
    {
        let ghost prev = out@.map_values(|s: String| s@);
        assert(ps.take(k + 1).drop_last() =~= ps.take(k as int));
        assert(ps.take(k + 1).last() == items@[k as int].lcsc_part@);
        let part = &items[k].lcsc_part;
        if !part.as_str().is_empty() {
            let mut seen = false;
            let mut j: usize = 0;
            while j < out.len()
                invariant
                    j <= out@.len(),
                    prev == out@.map_values(|s: String| s@),
                    seen <==> exists|i: int| 0 <= i < j && prev[i] == part@,
                decreases out@.len() - j,
            {
                assert(prev[j as int] == out@[j as int]@);
                if str_eq(out[j].as_str(), part.as_str()) {
                    seen = true;
                }
                j = j + 1;
            }
            assert(seen <==> prev.contains(part@));
            if !seen {
                out.push(part.clone());
                assert(out@.map_values(|s: String| s@) =~= prev.push(part@));
            }
        }
        k = k + 1;
    }
    assert(ps.take(items.len() as int) =~= ps);
    out
}

/// Law: the LCSC numbers listed for a set of parts name each non-empty number of the input
/// exactly once, and nothing else.
pub proof fn law_unique_lcsc_parts(ps: Seq<Seq<char>>)
    ensures
        first_occurrences(ps).no_duplicates(),
        forall|x: Seq<char>|
            #![trigger first_occurrences(ps).contains(x)]
            first_occurrences(ps).contains(x) <==> (x.len() > 0 && ps.contains(x)),
    decreases ps.len(),
{
    if ps.len() > 0 {
        let init = ps.drop_last();
        law_unique_lcsc_parts(init);
        assert forall|x: Seq<char>|
            #![trigger first_occurrences(ps).contains(x)]
            first_occurrences(ps).contains(x) <==> (x.len() > 0 && ps.contains(x)) by {
            assert(first_occurrences(init).contains(x) <==> (x.len() > 0 && init.contains(x)));
            if ps.contains(x) && !init.contains(x) {
                let i = choose|i: int| 0 <= i < ps.len() && ps[i] == x;
                if i < ps.len() - 1 {
                    assert(init[i] == x);
                }
            }
            if init.contains(x) {
                let i = choose|i: int| 0 <= i < init.len() && init[i] == x;
                assert(ps[i] == x);
            }
            if first_occurrences(ps) != first_occurrences(init) {
                let p = first_occurrences(init);
                assert(first_occurrences(ps) == p.push(ps.last()));
                if p.push(ps.last()).contains(x) {
                    let i = choose|i: int| 0 <= i < p.len() + 1 && p.push(ps.last())[i] == x;
                    if i < p.len() {
                        assert(p[i] == x);
                    }
                }
                if p.contains(x) {
                    let i = choose|i: int| 0 <= i < p.len() && p[i] == x;
                    assert(p.push(ps.last())[i] == x);
                }
                if x == ps.last() {
                    assert(p.push(ps.last())[p.len() as int] == x);
                }
            }
        }
    }
}

/// `path` names a 3D model generated for the part whose file stems end in `suffix`.
pub open spec fn generated_model(path: Seq<char>, suffix: Seq<char>) -> bool {
    match extension(path) {
        None => false,
        Some(e) => {
            let l = lower_seq(e);
            (l == "step"@ || l == "stp"@ || l == "wrl"@) && match file_stem(path) {
                Some(st) => ends_with(st, suffix),
                None => false,
            }
        },
    }
}

/// Whether `path` is a STEP or VRML model whose file stem ends in `suffix`.
pub fn is_generated_model_for_lcsc(path: &str, suffix: &str) -> (r: bool)
    ensures
        r == generated_model(path@, suffix@),
{
    let p = chars_of(path);
    let ext = match extension_chars(p.as_slice()) {
        Some(e) => e,
        None => return false,
    };
    let l = lower_chars(ext.as_slice());
    let step = chars_of("step");
    let stp = chars_of("stp");
    let wrl = chars_of("wrl");
    if !(chars_eq(l.as_slice(), step.as_slice()) || chars_eq(l.as_slice(), stp.as_slice())
        || chars_eq(l.as_slice(), wrl.as_slice())) {
        return false;
    }
    let sfx = chars_of(suffix);
    match file_stem_chars(p.as_slice()) {
        Some(st) => ends_with_chars(st.as_slice(), sfx.as_slice()),
        None => false,
    }
}

/// `path` has the extension of a KiCad symbol or footprint library.
pub open spec fn supported_library_file(path: Seq<char>) -> bool {
    extension(path) == Some("kicad_sym"@) || extension(path) == Some("kicad_mod"@)
}

/// Whether `path` is a `.kicad_sym` or `.kicad_mod` file.
pub fn is_supported_library_file(path: &str) -> (r: bool)
    ensures
        r == supported_library_file(path@),
{
    let p = chars_of(path);
    match extension_chars(p.as_slice()) {
        Some(e) => {
            let sym = chars_of("kicad_sym");
            let md = chars_of("kicad_mod");
            chars_eq(e.as_slice(), sym.as_slice()) || chars_eq(e.as_slice(), md.as_slice())
        },
        None => false,
    }
}

/// `path` has the extension `kicad_sym`, in any case.
pub open spec fn kicad_symbol_file(path: Seq<char>) -> bool {
    match extension(path) {
        Some(e) => lower_seq(e) == "kicad_sym"@,
        None => false,
    }
}

/// Whether `path` is a KiCad symbol library, by its extension in any letter case.
pub fn is_kicad_symbol_file(path: &str) -> (r: bool)
    ensures
        r == kicad_symbol_file(path@),
{
    let p = chars_of(path);
    match extension_chars(p.as_slice()) {
        Some(e) => {
            let l = lower_chars(e.as_slice());
            let sym = chars_of("kicad_sym");
            chars_eq(l.as_slice(), sym.as_slice())
        },
        None => false,
    }
}

/// `path` lies in a KiCad installation's own library folders.
pub open spec fn standard_kicad_path(path: Seq<char>) -> bool {
    contains_seq(path, "KiCad.app/Contents/SharedSupport"@) || contains_seq(path, "/share/kicad/"@)
}

/// Whether `path` lies in the libraries that ship with KiCad.
pub fn is_standard_kicad_path(path: &str) -> (r: bool)
    ensures
        r == standard_kicad_path(path@),
{
    let p = chars_of(path);
    let a = chars_of("KiCad.app/Contents/SharedSupport");
    let b = chars_of("/share/kicad/");
    contains_chars(p.as_slice(), a.as_slice()) || contains_chars(p.as_slice(), b.as_slice())
}

/// The single plain file name that `source_file` must be, or why it is refused. Like
/// `Path::components`, empty pieces and `.` pieces after the first are ignored.
pub open spec fn normalized_source_file(source_file: Seq<char>) -> Result<Seq<char>, Seq<char>> {
    let parts = split_on(source_file, '/');
    if trim(source_file).len() == 0 {
        Err("Source library file is required"@)
    } else if parts[0].len() == 0 || parts[0] == "."@ || parts[0] == ".."@ || exists|k: int|
        1 <= k < parts.len() && (#[trigger] parts[k]).len() != 0 && parts[k] != "."@ {
        Err("Source library file must stay inside the export output directory"@)
    } else if !kicad_symbol_file(parts[0]) {
        Err("Source library file must be a .kicad_sym library"@)
    } else {
        Ok(parts[0])
    }
}

fn owned(s: &str) -> (r: String)
    ensures
        r@ == s@,
{
    s.to_owned()
}

/// Checks that a library named by a request is a `.kicad_sym` file directly inside the
/// output folder and gives its file name.
pub fn normalize_source_file(source_file: &str) -> (r: Result<String, String>)
    ensures
        match r {
            Ok(v) => normalized_source_file(source_file@) == Ok::<Seq<char>, Seq<char>>(v@),
            Err(m) => normalized_source_file(source_file@) == Err::<Seq<char>, Seq<char>>(m@),
        },
{
    let cs = chars_of(source_file);
    let parts = split_chars(cs.as_slice(), '/');
    let ghost sp = split_on(source_file@, '/');
    proof {
        lemma_split_prefix_nonempty(source_file@, '/', source_file@.len() as int);
    }
    if trim_str(source_file).as_str().is_empty() {
        return Err(owned("Source library file is required"));
    }
    let first = &parts[0];
    let dot = chars_of(".");
    let dotdot = chars_of("..");
    let mut bad = first.len() == 0 || chars_eq(first.as_slice(), dot.as_slice()) || chars_eq(
        first.as_slice(),
        dotdot.as_slice(),
    );
    let mut k: usize = 1;
    while k < parts.len()
        invariant
            1 <= k <= parts@.len(),
            parts@.len() == sp.len(),
            forall|j: int| 0 <= j < parts@.len() ==> (#[trigger] parts@[j])@ == sp[j],
            dot@ == "."@,
            bad <==> (sp[0].len() == 0 || sp[0] == "."@ || sp[0] == ".."@ || exists|j: int|
                1 <= j < k && (#[trigger] sp[j]).len() != 0 && sp[j] != "."@),
        decreases parts@.len() - k,
    {
        if parts[k].len() != 0 && !chars_eq(parts[k].as_slice(), dot.as_slice()) {
            bad = true;
        }
        k = k + 1;
    }
    if bad {
        return Err(owned("Source library file must stay inside the export output directory"));
    }
    let name = string_from(first.as_slice());
    if !is_kicad_symbol_file(name.as_str()) {
        return Err(owned("Source library file must be a .kicad_sym library"));
    }
    Ok(name)
}

/// One file found in a library's model folder, and its size.
#[derive(Debug, Clone, PartialEq, Eq)]
pub struct ModelEntry {
    pub file_name: String,
    pub size_bytes: u64,
}

/// A model as plain values: file name, lower-case format, size.
pub type ModelView = (Seq<char>, Seq<char>, u64);

pub open spec fn model_view(m: ImportedModel) -> ModelView {
    (m.file_name@, m.format@, m.size_bytes)
}

/// The generated models among the first `n` entries, in the order found.
pub open spec fn model_candidates(es: Seq<ModelEntry>, suffix: Seq<char>, n: int) -> Seq<ModelView>
    decreases n,
{
    if n <= 0 {
        Seq::empty()
    } else {
        let prev = model_candidates(es, suffix, n - 1);
        let e = es[n - 1];
        if generated_model(e.file_name@, suffix) && file_name(e.file_name@) is Some {
            prev.push(
                (
                    file_name(e.file_name@)->0,
                    lower_seq(extension(e.file_name@)->0),
                    e.size_bytes,
                ),
            )
        } else {
            prev
        }
    }
}

/// Where `x` goes among `t` when sorting by file name: after every entry that does not
/// sort after it, so that equal names keep their order.
pub open spec fn model_insert_pos(t: Seq<ModelView>, x: ModelView, n: int) -> int
    decreases n,
{
    if n <= 0 {
        0
    } else if seq_lt(x.0, t[n - 1].0) {
        model_insert_pos(t, x, n - 1)
    } else {
        n
    }
}

/// The first `n` models stably sorted by file name.
pub open spec fn sort_models(ms: Seq<ModelView>, n: int) -> Seq<ModelView>
    decreases n,
{
    if n <= 0 {
        Seq::empty()
    } else {
        let t = sort_models(ms, n - 1);
        t.insert(model_insert_pos(t, ms[n - 1], t.len() as int), ms[n - 1])
    }
}

/// The models of the part with LCSC number `lcsc` among the files of a model folder.
pub open spec fn models_for(es: Seq<ModelEntry>, lcsc: Seq<char>) -> Seq<ModelView> {
    let c = model_candidates(es, "_"@ + lcsc, es.len() as int);
    sort_models(c, c.len() as int)
}

/// The 3D models generated for part `lcsc`, from the files of its library's model folder,
/// sorted by file name.
pub fn imported_models_from_entries(entries: &[ModelEntry], lcsc: &str) -> (r: Vec<ImportedModel>)
    ensures
        r@.map_values(|m: ImportedModel| model_view(m)) == models_for(entries@, lcsc@),
{
    let mut sfx: Vec<char> = Vec::new();
    sfx.push('_');
    extend_str(&mut sfx, lcsc);
    let suffix = string_from(sfx.as_slice());
    proof {
        reveal_strlit("_");
    }
    assert(suffix@ =~= "_"@ + lcsc@);
    let mut found: Vec<ImportedModel> = Vec::new();
    let mut k: usize = 0;
    while k < entries.len()
        invariant
            k <= entries.len(),
            suffix@ == "_"@ + lcsc@,
            found@.map_values(|m: ImportedModel| model_view(m)) == model_candidates(
                entries@,
                suffix@,
                k as int,
            ),
        decreases entries.len() - k,
    {
        let e = &entries[k];
        let ghost prev = found@.map_values(|m: ImportedModel| model_view(m));
        if is_generated_model_for_lcsc(e.file_name.as_str(), suffix.as_str()) {
            let p = chars_of(e.file_name.as_str());
            match file_name_chars(p.as_slice()) {
                Some(f) => {
                    match extension_chars(p.as_slice()) {
                        Some(x) => {
                            let fmt = lower_chars(x.as_slice());
                            found.push(
                                ImportedModel {
                                    file_name: string_from(f.as_slice()),
                                    format: string_from(fmt.as_slice()),
                                    size_bytes: e.size_bytes,
                                },
                            );
                            assert(found@.map_values(|m: ImportedModel| model_view(m)) =~= prev.push(
                                (f@, fmt@, e.size_bytes),
                            ));
                        },
                        None => {},
                    }
                },
                None => {},
            }
        }
        k = k + 1;
    }
    let ghost c = found@.map_values(|m: ImportedModel| model_view(m));
    let mut sorted: Vec<ImportedModel> = Vec::new();
    let mut rest = found;
    let ghost mut n: int = 0;
    let ghost orig = rest@;
    while rest.len() > 0
        invariant
            0 <= n <= orig.len(),
            c == orig.map_values(|m: ImportedModel| model_view(m)),
            rest@ == orig.skip(n),
            sorted@.map_values(|m: ImportedModel| model_view(m)) == sort_models(c, n),
        decreases rest.len(),
    {
        let x = rest.remove(0);
        assert(x == orig[n]);
        let ghost t = sorted@.map_values(|m: ImportedModel| model_view(m));
        let mut p = sorted.len();
        while p > 0 && str_lt(x.file_name.as_str(), sorted[p - 1].file_name.as_str())
            invariant
                p <= sorted@.len(),
                t == sorted@.map_values(|m: ImportedModel| model_view(m)),
                model_insert_pos(t, model_view(x), t.len() as int) == model_insert_pos(
                    t,
                    model_view(x),
                    p as int,
                ),
            decreases p,
        {
            p = p - 1;
        }
        sorted.insert(p, x);
        assert(sorted@.map_values(|m: ImportedModel| model_view(m)) =~= t.insert(
            p as int,
            model_view(x),
        ));
        proof {
            n = n + 1;
            assert(rest@ =~= orig.skip(n));
            assert(c[n - 1] == model_view(x));
        }
    }
    sorted
}


/// The key under which two listings count as the same part: its normalised LCSC number,
/// or for a part without one its file, symbol and package.
pub open spec fn item_identity(it: ImportedSymbol) -> Seq<char> {
    if trim(it.lcsc_part@).len() > 0 {
        "lcsc:"@ + normalized_lcsc(it.lcsc_part@)
    } else {
        "source:"@ + it.source_file@ + seq!['\u{1f}'] + "symbol:"@ + it.symbol_name@ + seq![
            '\u{1f}',
        ] + "package:"@ + it.package@
    }
}

fn identity_of(it: &ImportedSymbol) -> (r: Vec<char>)
    ensures
        r@ == item_identity(*it),
{
    let mut r: Vec<char> = Vec::new();
    if !trim_str(it.lcsc_part.as_str()).as_str().is_empty() {
        extend_str(&mut r, "lcsc:");
        let cs = chars_of(it.lcsc_part.as_str());
        let n = normalize_lcsc_part(cs.as_slice());
        extend_chars(&mut r, n.as_slice());
    } else {
        extend_str(&mut r, "source:");
        extend_str(&mut r, it.source_file.as_str());
        r.push('\u{1f}');
        extend_str(&mut r, "symbol:");
        extend_str(&mut r, it.symbol_name.as_str());
        r.push('\u{1f}');
        extend_str(&mut r, "package:");
        extend_str(&mut r, it.package.as_str());
    }
    assert(r@ =~= item_identity(*it));
    r
}

/// The order of listed parts: by LCSC number, then file, symbol name and library key.
pub open spec fn item_lt(a: ImportedSymbol, b: ImportedSymbol) -> bool {
    seq_lt(a.lcsc_part@, b.lcsc_part@) || (a.lcsc_part@ == b.lcsc_part@ && (seq_lt(
        a.source_file@,
        b.source_file@,
    ) || (a.source_file@ == b.source_file@ && (seq_lt(a.symbol_name@, b.symbol_name@) || (
    a.symbol_name@ == b.symbol_name@ && seq_lt(a.library_key@, b.library_key@))))))
}

/// Whether `a` is listed before `b` (see `item_lt`).
pub fn item_before(a: &ImportedSymbol, b: &ImportedSymbol) -> (r: bool)
    ensures
        r == item_lt(*a, *b),
{
    if str_lt(a.lcsc_part.as_str(), b.lcsc_part.as_str()) {
        return true;
    }
    if !str_eq(a.lcsc_part.as_str(), b.lcsc_part.as_str()) {
        return false;
    }
    if str_lt(a.source_file.as_str(), b.source_file.as_str()) {
        return true;
    }
    if !str_eq(a.source_file.as_str(), b.source_file.as_str()) {
        return false;
    }
    if str_lt(a.symbol_name.as_str(), b.symbol_name.as_str()) {
        return true;
    }
    if !str_eq(a.symbol_name.as_str(), b.symbol_name.as_str()) {
        return false;
    }
    str_lt(a.library_key.as_str(), b.library_key.as_str())
}

/// A later listing `item` of a part takes the place of the kept listing `current`: an
/// exported one beats any other kind, and among one kind the one listed first wins.
pub open spec fn replaces(item: ImportedSymbol, current: ImportedSymbol) -> bool {
    (item.source_kind@ == "export"@ && current.source_kind@ != "export"@) || (
    current.source_kind@ == item.source_kind@ && item_lt(item, current))
}

pub type Keyed = (Seq<char>, ImportedSymbol);

/// Position of the entry with key `id`, searching from `k`.
pub open spec fn identity_index(es: Seq<Keyed>, id: Seq<char>, k: int) -> Option<int>
    decreases es.len() - k,
{
    if k < 0 || k >= es.len() {
        None
    } else if es[k].0 == id {
        Some(k)
    } else {
        identity_index(es, id, k + 1)
    }
}

/// One entry per part among the first `n` items, in the order parts first appear.
pub open spec fn dedup_fold(items: Seq<ImportedSymbol>, n: int) -> Seq<Keyed>
    decreases n,
{
    if n <= 0 {
        Seq::empty()
    } else {
        let es = dedup_fold(items, n - 1);
        let it = items[n - 1];
        let id = item_identity(it);
        match identity_index(es, id, 0) {
            None => es.push((id, it)),
            Some(k) => if replaces(it, es[k].1) {
                es.update(k, (id, it))
            } else {
                es
            },
        }
    }
}

pub open spec fn key_insert_pos(t: Seq<Keyed>, x: Keyed, n: int) -> int
    decreases n,
{
    if n <= 0 {
        0
    } else if seq_lt(x.0, t[n - 1].0) {
        key_insert_pos(t, x, n - 1)
    } else {
        n
    }
}

/// The first `n` entries sorted by key.
pub open spec fn sort_by_key(es: Seq<Keyed>, n: int) -> Seq<Keyed>
    decreases n,
{
    if n <= 0 {
        Seq::empty()
    } else {
        let t = sort_by_key(es, n - 1);
        t.insert(key_insert_pos(t, es[n - 1], t.len() as int), es[n - 1])
    }
}

pub open spec fn item_insert_pos(t: Seq<ImportedSymbol>, x: ImportedSymbol, n: int) -> int
    decreases n,
{
    if n <= 0 {
        0
    } else if item_lt(x, t[n - 1]) {
        item_insert_pos(t, x, n - 1)
    } else {
        n
    }
}

/// The first `n` items stably sorted by `item_lt`.
pub open spec fn sort_items(xs: Seq<ImportedSymbol>, n: int) -> Seq<ImportedSymbol>
    decreases n,
{
    if n <= 0 {
        Seq::empty()
    } else {
        let t = sort_items(xs, n - 1);
        t.insert(item_insert_pos(t, xs[n - 1], t.len() as int), xs[n - 1])
    }
}

/// One listing per part, ordered by key and then stably by `item_lt`.
pub open spec fn deduplicated(items: Seq<ImportedSymbol>) -> Seq<ImportedSymbol> {
    let es = dedup_fold(items, items.len() as int);
    let byk = sort_by_key(es, es.len() as int);
    let xs = byk.map_values(|e: Keyed| e.1);
    sort_items(xs, xs.len() as int)
}

fn find_identity(es: &Vec<(Vec<char>, ImportedSymbol)>, id: &[char]) -> (r: Option<usize>)
    ensures
        match r {
            Some(k) => identity_index(es@.map_values(|e: (Vec<char>, ImportedSymbol)| (e.0@, e.1)), id@, 0)
                == Some(k as int) && k < es@.len(),
            None => identity_index(es@.map_values(|e: (Vec<char>, ImportedSymbol)| (e.0@, e.1)), id@, 0)
                is None,
        },
{
    let ghost ev = es@.map_values(|e: (Vec<char>, ImportedSymbol)| (e.0@, e.1));
    let mut k: usize = 0;
    while k < es.len()
        invariant
            k <= es@.len(),
            ev == es@.map_values(|e: (Vec<char>, ImportedSymbol)| (e.0@, e.1)),
            identity_index(ev, id@, 0) == identity_index(ev, id@, k as int),
        decreases es@.len() - k,
    {
        assert(ev[k as int].0 == es@[k as int].0@);
        if chars_eq(es[k].0.as_slice(), id) {
            return Some(k);
        }
        k = k + 1;
    }
    None
}

/// Keeps one listing per part (see `deduplicated`).
pub fn deduplicate_library_items(items: Vec<ImportedSymbol>) -> (r: Vec<ImportedSymbol>)
    ensures
        r@ == deduplicated(items@),
{
    let ghost orig = items@;
    let mut es: Vec<(Vec<char>, ImportedSymbol)> = Vec::new();
    let mut rest = items;
    let ghost mut n: int = 0;
    while rest.len() > 0
        invariant
            0 <= n <= orig.len(),
            rest@ == orig.skip(n),
            es@.map_values(|e: (Vec<char>, ImportedSymbol)| (e.0@, e.1)) == dedup_fold(orig, n),
        decreases rest.len(),
    {
        let it = rest.remove(0);
        assert(it == orig[n]);
        let ghost ev = es@.map_values(|e: (Vec<char>, ImportedSymbol)| (e.0@, e.1));
        let id = identity_of(&it);
        match find_identity(&es, id.as_slice()) {
            None => {
                es.push((id, it));
                assert(es@.map_values(|e: (Vec<char>, ImportedSymbol)| (e.0@, e.1)) =~= ev.push(
                    (item_identity(orig[n]), orig[n]),
                ));
            },
            Some(k) => {
                let cur = &es[k].1;
                assert(ev[k as int].1 == *cur);
                let take = (str_eq(it.source_kind.as_str(), "export") && !str_eq(
                    cur.source_kind.as_str(),
                    "export",
                )) || (str_eq(cur.source_kind.as_str(), it.source_kind.as_str()) && item_before(
                    &it,
                    cur,
                ));
                if take {
                    es.set(k, (id, it));
                    assert(es@.map_values(|e: (Vec<char>, ImportedSymbol)| (e.0@, e.1)) =~= ev.update(
                        k as int,
                        (item_identity(orig[n]), orig[n]),
                    ));
                }
            },
        }
        proof {
            n = n + 1;
            assert(rest@ =~= orig.skip(n));
        }
    }
    let ghost fold = es@.map_values(|e: (Vec<char>, ImportedSymbol)| (e.0@, e.1));
    let mut byk: Vec<(Vec<char>, ImportedSymbol)> = Vec::new();
    let ghost eorig = es@;
    let ghost mut m: int = 0;
    while es.len() > 0
        invariant
            0 <= m <= eorig.len(),
            fold == eorig.map_values(|e: (Vec<char>, ImportedSymbol)| (e.0@, e.1)),
            es@ == eorig.skip(m),
            byk@.map_values(|e: (Vec<char>, ImportedSymbol)| (e.0@, e.1)) == sort_by_key(fold, m),
        decreases es.len(),
    {
        let x = es.remove(0);
        assert(x == eorig[m]);
        let ghost t = byk@.map_values(|e: (Vec<char>, ImportedSymbol)| (e.0@, e.1));
        let mut p = byk.len();
        while p > 0 && chars_lt(x.0.as_slice(), byk[p - 1].0.as_slice())
            invariant
                p <= byk@.len(),
                t == byk@.map_values(|e: (Vec<char>, ImportedSymbol)| (e.0@, e.1)),
                key_insert_pos(t, (x.0@, x.1), t.len() as int) == key_insert_pos(t, (x.0@, x.1), p as int),
            decreases p,
        {
            p = p - 1;
        }
        byk.insert(p, x);
        assert(byk@.map_values(|e: (Vec<char>, ImportedSymbol)| (e.0@, e.1)) =~= t.insert(
            p as int,
            (x.0@, x.1),
        ));
        proof {
            m = m + 1;
            assert(es@ =~= eorig.skip(m));
            assert(fold[m - 1] == (x.0@, x.1));
        }
    }
    let ghost sk = byk@.map_values(|e: (Vec<char>, ImportedSymbol)| (e.0@, e.1));
    let ghost xs = sk.map_values(|e: Keyed| e.1);
    let mut sorted: Vec<ImportedSymbol> = Vec::new();
    let ghost borig = byk@;
    let ghost mut q: int = 0;
    while byk.len() > 0
        invariant
            0 <= q <= borig.len(),
            sk == borig.map_values(|e: (Vec<char>, ImportedSymbol)| (e.0@, e.1)),
            xs == sk.map_values(|e: Keyed| e.1),
            byk@ == borig.skip(q),
            sorted@ == sort_items(xs, q),
        decreases byk.len(),
    {
        let (_, x) = byk.remove(0);
        assert(x == borig[q].1);
        assert(xs[q] == x);
        let ghost t = sorted@;
        let mut p = sorted.len();
        while p > 0 && item_before(&x, &sorted[p - 1])
            invariant
                p <= sorted@.len(),
                t == sorted@,
                item_insert_pos(t, x, t.len() as int) == item_insert_pos(t, x, p as int),
            decreases p,
        {
            p = p - 1;
        }
        sorted.insert(p, x);
        proof {
            q = q + 1;
            assert(byk@ =~= borig.skip(q));
        }
    }
    sorted
}


/// One library file as it was read: where it was found, its text, and the files of the
/// model folder that goes with it.
#[derive(Debug, Clone, PartialEq, Eq)]
pub struct ScannedLibrary {
    pub file: LibraryFile,
    pub content: String,
    pub models: Vec<ModelEntry>,
}

/// What a scan of the library folders read.
#[derive(Debug, Clone, PartialEq, Eq)]
pub struct LibraryScan {
    pub scanned_path: String,
    pub sources: Vec<LibrarySource>,
    pub libraries: Vec<ScannedLibrary>,
}

/// Why the text of library file `lf` cannot be parsed, if it cannot.
pub open spec fn parse_error(lf: LibraryFile, content: Seq<char>) -> Option<Seq<char>> {
    if is_footprint_file(lf) {
        if head_string(content, kw_footprint()) is None {
            Some("footprint file is missing a name"@)
        } else {
            None
        }
    } else {
        match blocks_from(content, 0, 0, false, false) {
            Err(e) => Some(scan_error_message(e)),
            Ok(_) => None,
        }
    }
}

/// `items` are what parsing the text of library file `lf` yields.
pub open spec fn parsed_as(lf: LibraryFile, content: Seq<char>, items: Seq<ImportedSymbol>) -> bool {
    if is_footprint_file(lf) {
        items.len() == 1 && footprint_item_for(lf, content, items[0])
    } else {
        blocks_from(content, 0, 0, false, false) matches Ok(spans) && items.len() == spans.len()
            && forall|k: int|
            0 <= k < items.len() ==> symbol_item_for(
                lf,
                content.subrange(spans[k].0, spans[k].1),
                #[trigger] items[k],
            )
    }
}

/// `out` is `parsed` with the models of each exported part with an LCSC number filled in.
pub open spec fn with_models(lib: ScannedLibrary, parsed: Seq<ImportedSymbol>, out: Seq<ImportedSymbol>) -> bool {
    &&& out.len() == parsed.len()
    &&& forall|k: int|
        0 <= k < out.len() ==> {
            &&& #[trigger] out[k] == ImportedSymbol { models: out[k].models, ..parsed[k] }
            &&& if lib.file.editable && parsed[k].lcsc_part@.len() > 0 {
                out[k].models@.map_values(|m: ImportedModel| model_view(m)) == models_for(
                    lib.models@,
                    parsed[k].lcsc_part@,
                )
            } else {
                out[k].models == parsed[k].models
            }
        }
}

/// `items` are the listings that library `lib` yields.
pub open spec fn library_yield(lib: ScannedLibrary, items: Seq<ImportedSymbol>) -> bool {
    exists|parsed: Seq<ImportedSymbol>|
        parsed_as(lib.file, lib.content@, parsed) && #[trigger] with_models(lib, parsed, items)
}

/// The concatenation of the given runs of items.
pub open spec fn concat_all(per: Seq<Seq<ImportedSymbol>>) -> Seq<ImportedSymbol>
    decreases per.len(),
{
    if per.len() == 0 {
        Seq::empty()
    } else {
        concat_all(per.drop_last()) + per.last()
    }
}

/// `all` are the listings of the libraries `libs`, library after library.
pub open spec fn scan_yield(libs: Seq<ScannedLibrary>, all: Seq<ImportedSymbol>) -> bool {
    exists|per: Seq<Seq<ImportedSymbol>>|
        per.len() == libs.len() && (forall|k: int|
            0 <= k < per.len() ==> library_yield(libs[k], #[trigger] per[k])) && all == concat_all(
            per,
        )
}

/// The message for the first library from position `k` on that cannot be parsed.
pub open spec fn first_parse_error(libs: Seq<ScannedLibrary>, k: int) -> Option<Seq<char>>
    decreases libs.len() - k,
{
    if k < 0 || k >= libs.len() {
        None
    } else {
        match parse_error(libs[k].file, libs[k].content@) {
            Some(e) => Some("Failed to parse "@ + libs[k].file.path@ + ": "@ + e),
            None => first_parse_error(libs, k + 1),
        }
    }
}

fn parse_failure(path: &str, err: &str) -> (r: String)
    ensures
        r@ == "Failed to parse "@ + path@ + ": "@ + err@,
{
    let mut m: Vec<char> = Vec::new();
    extend_str(&mut m, "Failed to parse ");
    extend_str(&mut m, path);
    extend_str(&mut m, ": ");
    extend_str(&mut m, err);
    string_from(m.as_slice())
}

/// The listings of one library file, with models filled in for exported parts.
fn library_items(lib: &ScannedLibrary) -> (r: Result<Vec<ImportedSymbol>, String>)
    ensures
        match r {
            Ok(items) => parse_error(lib.file, lib.content@) is None && library_yield(*lib, items@),
            Err(m) => parse_error(lib.file, lib.content@) == Some(m@),
        },
{
    let mut items = match parse_kicad_library_file(lib.content.as_str(), &lib.file) {
        Ok(v) => v,
        Err(m) => return Err(m),
    };
    let ghost parsed = items@;
    assert(parsed_as(lib.file, lib.content@, parsed));
    let mut k: usize = 0;
    while k < items.len()
        invariant
            k <= items@.len(),
            items@.len() == parsed.len(),
            forall|j: int|
                k <= j < items@.len() ==> #[trigger] items@[j] == parsed[j],
            forall|j: int|
                0 <= j < k ==> {
                    &&& #[trigger] items@[j] == ImportedSymbol { models: items@[j].models, ..parsed[j] }
                    &&& if lib.file.editable && parsed[j].lcsc_part@.len() > 0 {
                        items@[j].models@.map_values(|m: ImportedModel| model_view(m)) == models_for(
                            lib.models@,
                            parsed[j].lcsc_part@,
                        )
                    } else {
                        items@[j].models == parsed[j].models
                    }
                },
        decreases items@.len() - k,
    {
        if lib.file.editable && !items[k].lcsc_part.as_str().is_empty() {
            let models = imported_models_from_entries(lib.models.as_slice(), items[k].lcsc_part.as_str());
            let mut it = items.remove(k);
            it.models = models;
            items.insert(k, it);
        }
        k = k + 1;
    }
    assert(with_models(*lib, parsed, items@));
    Ok(items)
}

/// The listings of all scanned libraries, one per part (see `deduplicated`), or the first
/// parse failure.
pub open spec fn scan_result_ok(scan: LibraryScan, r: ImportedSymbolsResponse) -> bool {
    &&& r.scanned_path == scan.scanned_path
    &&& r.sources == scan.sources
    &&& exists|all: Seq<ImportedSymbol>| #[trigger] scan_yield(scan.libraries@, all) && r.items@
        == deduplicated(all)
}

/// Lists the parts of the libraries that a scan read, one listing per part.
pub fn load_imported_symbols_with_paths(scan: LibraryScan) -> (r: Result<ImportedSymbolsResponse, String>)
    ensures
        match r {
            Ok(resp) => first_parse_error(scan.libraries@, 0) is None && scan_result_ok(scan, resp),
            Err(m) => first_parse_error(scan.libraries@, 0) == Some(m@),
        },
{
    let ghost libs = scan.libraries@;
    let mut all: Vec<ImportedSymbol> = Vec::new();
    let ghost mut per: Seq<Seq<ImportedSymbol>> = Seq::empty();
    let mut k: usize = 0;
    while k < scan.libraries.len()
        invariant
            k <= libs.len(),
            libs == scan.libraries@,
            per.len() == k,
            forall|j: int| 0 <= j < k ==> library_yield(libs[j], #[trigger] per[j]),
            all@ == concat_all(per),
            first_parse_error(libs, 0) == first_parse_error(libs, k as int),
        decreases libs.len() - k,
    {
        let lib = &scan.libraries[k];
        match library_items(lib) {
            Ok(items) => {
                let ghost old_per = per;
                proof {
                    per = per.push(items@);
                    assert(per.drop_last() =~= old_per);
                }
                let mut items = items;
                all.append(&mut items);
            },
            Err(m) => {
                return Err(parse_failure(lib.file.path.as_str(), m.as_str()));
            },
        }
        k = k + 1;
    }
    let ghost allv = all@;
    assert(scan_yield(libs, allv));
    let items = deduplicate_library_items(all);
    let resp = ImportedSymbolsResponse {
        scanned_path: scan.scanned_path,
        sources: scan.sources,
        items,
    };
    Ok(resp)
}


/// `b` is listing `a` named by the file name of its library alone, as the export folder's
/// own listing shows it.
pub open spec fn relabeled(a: ImportedSymbol, b: ImportedSymbol) -> bool {
    match file_name(a.source_file@) {
        None => b == a,
        Some(n) => {
            let prefix = if starts_with(a.library_key@, "footprint:"@) {
                "footprint"@
            } else {
                "symbol"@
            };
            &&& b == ImportedSymbol { source_file: b.source_file, library_key: b.library_key, ..a }
            &&& b.source_file@ == n
            &&& b.library_key@ == prefix + ":"@ + n + ":"@ + a.symbol_name@
        },
    }
}

fn relabel(it: ImportedSymbol) -> (r: ImportedSymbol)
    ensures
        relabeled(it, r),
{
    let p = chars_of(it.source_file.as_str());
    match file_name_chars(p.as_slice()) {
        None => it,
        Some(n) => {
            let key = chars_of(it.library_key.as_str());
            let fp = chars_of("footprint:");
            let mut k: Vec<char> = Vec::new();
            if starts_with_chars(key.as_slice(), fp.as_slice()) {
                extend_str(&mut k, "footprint");
            } else {
                extend_str(&mut k, "symbol");
            }
            k.push(':');
            extend_chars(&mut k, n.as_slice());
            k.push(':');
            extend_str(&mut k, it.symbol_name.as_str());
            let mut out = it;
            out.source_file = string_from(n.as_slice());
            out.library_key = string_from(k.as_slice());
            proof {
                reveal_strlit(":");
            }
            assert(out.library_key@ =~= (if starts_with(it.library_key@, "footprint:"@) {
                "footprint"@
            } else {
                "symbol"@
            }) + ":"@ + n@ + ":"@ + it.symbol_name@);
            out
        },
    }
}

/// Lists the parts of the export folder's own libraries, one listing per part, each named
/// by the file name of its library.
pub fn load_imported_symbols(scan: LibraryScan) -> (r: Result<ImportedSymbolsResponse, String>)
    ensures
        match r {
            Ok(resp) => {
                &&& first_parse_error(scan.libraries@, 0) is None
                &&& resp.scanned_path == scan.scanned_path
                &&& resp.sources == scan.sources
                &&& exists|all: Seq<ImportedSymbol>| #[trigger] scan_yield(scan.libraries@, all) && {
                    let d = deduplicated(all);
                    resp.items@.len() == d.len() && forall|k: int|
                        0 <= k < d.len() ==> relabeled(d[k], #[trigger] resp.items@[k])
                }
            },
            Err(m) => first_parse_error(scan.libraries@, 0) == Some(m@),
        },
{
    let resp = match load_imported_symbols_with_paths(scan) {
        Ok(v) => v,
        Err(m) => return Err(m),
    };
    let ghost all = choose|all: Seq<ImportedSymbol>| #[trigger] scan_yield(scan.libraries@, all) && resp.items@
        == deduplicated(all);
    let ImportedSymbolsResponse { scanned_path, sources, items } = resp;
    let ghost d = items@;
    let mut out: Vec<ImportedSymbol> = Vec::new();
    let mut rest = items;
    let ghost mut n: int = 0;
    while rest.len() > 0
        invariant
            0 <= n <= d.len(),
            rest@ == d.skip(n),
            out@.len() == n,
            forall|k: int| 0 <= k < n ==> relabeled(d[k], #[trigger] out@[k]),
        decreases rest.len(),
    {
        let it = rest.remove(0);
        assert(it == d[n]);
        out.push(relabel(it));
        proof {
            n = n + 1;
            assert(rest@ =~= d.skip(n));
        }
    }
    Ok(ImportedSymbolsResponse { scanned_path, sources, items: out })
}

} // verus!
