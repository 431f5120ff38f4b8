//! Which library files a scan of the export folder and the configured library paths
//! reads, and how each is labelled: its kind, whether it can be edited, the name it is
//! listed under, and the order of files and locations.
use vstd::prelude::*;
use crate::imported_symbols::{LibraryFile, LibrarySource};
use crate::symbol_catalog::{
    is_standard_kicad_path, is_supported_library_file, standard_kicad_path,
    supported_library_file,
};
use crate::text::{chars_eq, chars_lt, chars_of, extend_str, seq_lt, split_chars, split_on, str_eq, string_from};

verus! {

/// The named parts of a path, in order: the pieces between `/`, without empty and `.`
/// pieces; an absolute path starts with an empty part, which comes before any name.
pub open spec fn path_segments(p: Seq<char>) -> Seq<Seq<char>> {
    let named = named_segments(split_on(p, '/'), split_on(p, '/').len() as int);
    if p.len() > 0 && p[0] == '/' {
        seq![Seq::<char>::empty()] + named
    } else {
        named
    }
}

/// The first `n` pieces that are neither empty nor `.`.
pub open spec fn named_segments(parts: Seq<Seq<char>>, n: int) -> Seq<Seq<char>>
    decreases n,
{
    if n <= 0 {
        Seq::empty()
    } else {
        let prev = named_segments(parts, n - 1);
        if parts[n - 1].len() == 0 || parts[n - 1] == seq!['.'] {
            prev
        } else {
            prev.push(parts[n - 1])
        }
    }
}

/// Lexicographic order on lists of parts, each part compared as text.
pub open spec fn segments_lt(a: Seq<Seq<char>>, b: Seq<Seq<char>>) -> bool
    decreases a.len(),
{
    if a.len() == 0 {
        b.len() > 0
    } else if b.len() == 0 {
        false
    } else if a[0] != b[0] {
        seq_lt(a[0], b[0])
    } else {
        segments_lt(a.skip(1), b.skip(1))
    }
}

/// Path `a` comes before path `b`: their parts compared one by one.
pub open spec fn path_before(a: Seq<char>, b: Seq<char>) -> bool {
    segments_lt(path_segments(a), path_segments(b))
}

fn path_key(p: &str) -> (r: Vec<Vec<char>>)
    ensures
        r@.map_values(|v: Vec<char>| v@) == path_segments(p@),
{
    let cs = chars_of(p);
    let parts = split_chars(cs.as_slice(), '/');
    let ghost pv = split_on(cs@, '/');
    let mut out: Vec<Vec<char>> = Vec::new();
    if cs.len() > 0 && cs[0] == '/' {
        out.push(Vec::new());
    }
    let ghost lead = out@.map_values(|v: Vec<char>| v@);
    let mut k: usize = 0;
    while k < parts.len()
        invariant
            k <= parts@.len(),
            parts@.len() == pv.len(),
            pv == split_on(cs@, '/'),
            forall|j: int| 0 <= j < parts@.len() ==> (#[trigger] parts@[j])@ == pv[j],
            out@.map_values(|v: Vec<char>| v@) == lead + named_segments(pv, k as int),
        decreases parts@.len() - k,
    {
        let piece = &parts[k];
        assert(piece@ == pv[k as int]);
        let dot = piece.len() == 1 && piece[0] == '.';
        proof {
            if piece@.len() == 1 && piece@[0] == '.' {
                assert(piece@ =~= seq!['.']);
            }
        }
        if piece.len() > 0 && !dot {
            let ghost before = out@.map_values(|v: Vec<char>| v@);
            let mut copy: Vec<char> = Vec::new();
            extend_chars_copy(&mut copy, piece.as_slice());
            out.push(copy);
            assert(out@.map_values(|v: Vec<char>| v@) =~= before.push(pv[k as int]));
        }
        k = k + 1;
    }
    assert(cs@ == p@);
    assert(lead + named_segments(pv, pv.len() as int) =~= path_segments(p@));
    out
}

fn extend_chars_copy(v: &mut Vec<char>, cs: &[char])
    ensures
        final(v)@ == old(v)@ + cs@,
{
    crate::text::extend_chars(v, cs);
}

fn segments_less(a: &Vec<Vec<char>>, b: &Vec<Vec<char>>) -> (r: bool)
    ensures
        r == segments_lt(a@.map_values(|v: Vec<char>| v@), b@.map_values(|v: Vec<char>| v@)),
{
    let ghost av = a@.map_values(|v: Vec<char>| v@);
    let ghost bv = b@.map_values(|v: Vec<char>| v@);
    let mut i: usize = 0;
    assert(av.skip(0) =~= av);
    assert(bv.skip(0) =~= bv);
    while i < a.len() && i < b.len()
        invariant
            i <= a@.len(),
            i <= b@.len(),
            av == a@.map_values(|v: Vec<char>| v@),
            bv == b@.map_values(|v: Vec<char>| v@),
            segments_lt(av, bv) == segments_lt(av.skip(i as int), bv.skip(i as int)),
        decreases a@.len() - i,
    {
        assert(av.skip(i as int)[0] == av[i as int]);
        assert(bv.skip(i as int)[0] == bv[i as int]);
        assert(av[i as int] == a@[i as int]@);
        assert(bv[i as int] == b@[i as int]@);
        if !chars_eq(a[i].as_slice(), b[i].as_slice()) {
            return chars_lt(a[i].as_slice(), b[i].as_slice());
        }
        assert(av.skip(i as int).skip(1) =~= av.skip(i + 1));
        assert(bv.skip(i as int).skip(1) =~= bv.skip(i + 1));
        i = i + 1;
    }
    i < b.len()
}

/// A library file by value: path, listed name, kind, editable.
pub type FileView = (Seq<char>, Seq<char>, Seq<char>, bool);

/// A library location by value: path, kind, configured.
pub type SourceView = (Seq<char>, Seq<char>, bool);

pub open spec fn file_view(f: LibraryFile) -> FileView {
    (f.path@, f.source_file@, f.source_kind@, f.editable)
}

pub open spec fn source_view(s: LibrarySource) -> SourceView {
    (s.path@, s.kind@, s.configured)
}

/// Where file `s[n-1]` goes among the stably ordered `t`: after every file whose path does
/// not come after its own.
pub open spec fn place_file(t: Seq<FileView>, x: FileView, i: int) -> int
    decreases t.len() - i,
{
    if i < 0 || i >= t.len() {
        t.len() as int
    } else if path_before(x.0, t[i].0) {
        i
    } else {
        place_file(t, x, i + 1)
    }
}

/// The first `n` files ordered by path, those with equal paths in their given order.
pub open spec fn files_by_path(s: Seq<FileView>, n: int) -> Seq<FileView>
    decreases n,
{
    if n <= 0 {
        Seq::empty()
    } else {
        let t = files_by_path(s, n - 1);
        t.insert(place_file(t, s[n - 1], 0), s[n - 1])
    }
}

pub open spec fn place_source(t: Seq<SourceView>, x: SourceView, i: int) -> int
    decreases t.len() - i,
{
    if i < 0 || i >= t.len() {
        t.len() as int
    } else if path_before(x.0, t[i].0) {
        i
    } else {
        place_source(t, x, i + 1)
    }
}

/// The first `n` locations ordered by path, those with equal paths in their given order.
pub open spec fn sources_by_path(s: Seq<SourceView>, n: int) -> Seq<SourceView>
    decreases n,
{
    if n <= 0 {
        Seq::empty()
    } else {
        let t = sources_by_path(s, n - 1);
        t.insert(place_source(t, s[n - 1], 0), s[n - 1])
    }
}

/// The first `n` locations without a location written exactly as the one before it.
pub open spec fn without_repeats(s: Seq<SourceView>, n: int) -> Seq<SourceView>
    decreases n,
{
    if n <= 0 {
        Seq::empty()
    } else {
        let t = without_repeats(s, n - 1);
        if n >= 2 && s[n - 2].0 == s[n - 1].0 {
            t
        } else {
            t.push(s[n - 1])
        }
    }
}

proof fn lemma_place_file(t: Seq<FileView>, x: FileView, i: int)
    requires
        0 <= i <= t.len(),
    ensures
        i <= place_file(t, x, i) <= t.len(),
    decreases t.len() - i,
{
    if i < t.len() && !path_before(x.0, t[i].0) {
        lemma_place_file(t, x, i + 1);
    }
}

proof fn lemma_place_source(t: Seq<SourceView>, x: SourceView, i: int)
    requires
        0 <= i <= t.len(),
    ensures
        i <= place_source(t, x, i) <= t.len(),
    decreases t.len() - i,
{
    if i < t.len() && !path_before(x.0, t[i].0) {
        lemma_place_source(t, x, i + 1);
    }
}

/// What a scan found at one library location.
#[derive(Debug, Clone, PartialEq, Eq)]
pub struct FoundLocation {
    /// The location as given: the export folder, or a configured path with `~` expanded.
    pub path: String,
    /// Whether it exists.
    pub exists: bool,
    /// The canonical path of the export folder (the prefix its files are named under).
    pub canonical: String,
    /// The canonical paths of the library files collected there (only from the folder
    /// itself for the export folder, from all its subfolders for a configured path).
    pub files: Vec<String>,
}

/// The name of canonical file `file` inside canonical folder `root`, if it is inside.
pub open spec fn relative_to(root: Seq<char>, file: Seq<char>) -> Option<Seq<char>> {
    if root.len() == 0 || file.len() <= root.len() || file.take(root.len() as int) != root {
        None
    } else if root.last() == '/' {
        Some(file.skip(root.len() as int))
    } else if file[root.len() as int] == '/' && file.len() > root.len() + 1 {
        Some(file.skip(root.len() as int + 1))
    } else {
        None
    }
}

/// Takes the first `n` files of a location: a file that is not a library file, or that
/// was already taken, is passed over; an exported file is listed under its name inside
/// the export folder (and refused when it is not inside it), another under its path.
pub open spec fn take_files(
    files: Seq<Seq<char>>,
    n: int,
    kind: Seq<char>,
    editable: bool,
    root: Seq<char>,
    shown: Seq<char>,
    start: (Seq<FileView>, Seq<Seq<char>>),
) -> Result<(Seq<FileView>, Seq<Seq<char>>), Seq<char>>
    decreases n,
{
    if n <= 0 {
        Ok(start)
    } else {
        match take_files(files, n - 1, kind, editable, root, shown, start) {
            Err(e) => Err(e),
            Ok((fs, seen)) => {
                let f = files[n - 1];
                if !supported_library_file(f) || seen.contains(f) {
                    Ok((fs, seen))
                } else if editable {
                    match relative_to(root, f) {
                        None => Err("Generated library file must stay inside "@ + shown),
                        Some(rel) => Ok((fs.push((f, rel, kind, true)), seen.push(f))),
                    }
                } else {
                    Ok((fs.push((f, f, kind, false)), seen.push(f)))
                }
            },
        }
    }
}

/// The kind of a configured location: a library that ships with KiCad, or an external one.
pub open spec fn configured_kind(path: Seq<char>) -> Seq<char> {
    if standard_kicad_path(path) {
        "kicad_standard"@
    } else {
        "external"@
    }
}

pub struct Discovery {
    pub files: Seq<FileView>,
    pub seen: Seq<Seq<char>>,
    pub sources: Seq<SourceView>,
}

/// The export folder's files and location, when it exists.
pub open spec fn export_discovery(output: FoundLocation) -> Result<Discovery, Seq<char>> {
    if !output.exists {
        Ok(Discovery { files: Seq::empty(), seen: Seq::empty(), sources: Seq::empty() })
    } else {
        match take_files(
            output.files@.map_values(|s: String| s@),
            output.files@.len() as int,
            "export"@,
            true,
            output.canonical@,
            output.path@,
            (Seq::empty(), Seq::empty()),
        ) {
            Err(e) => Err(e),
            Ok((fs, seen)) => Ok(Discovery { files: fs, seen, sources: seq![(output.path@, "export"@, false)] }),
        }
    }
}

/// After the export folder, the first `n` configured locations in order: one that does
/// not exist or has no library files is passed over; the others add their files and
/// themselves, of kind `configured_kind`.
pub open spec fn configured_discovery(output: FoundLocation, configured: Seq<FoundLocation>, n: int) -> Result<
    Discovery,
    Seq<char>,
>
    decreases n,
{
    if n <= 0 {
        export_discovery(output)
    } else {
        match configured_discovery(output, configured, n - 1) {
            Err(e) => Err(e),
            Ok(d) => {
                let c = configured[n - 1];
                if !c.exists || c.files@.len() == 0 {
                    Ok(d)
                } else {
                    let kind = configured_kind(c.path@);
                    match take_files(
                        c.files@.map_values(|s: String| s@),
                        c.files@.len() as int,
                        kind,
                        false,
                        Seq::empty(),
                        Seq::empty(),
                        (d.files, d.seen),
                    ) {
                        Err(e) => Err(e),
                        Ok((fs, seen)) => Ok(
                            Discovery { files: fs, seen, sources: d.sources.push((c.path@, kind, true)) },
                        ),
                    }
                }
            },
        }
    }
}

fn label_copy(s: &str) -> (r: String)
    ensures
        r@ == s@,
{
    string_from(chars_of(s).as_slice())
}

fn seen_has(seen: &Vec<String>, f: &str) -> (r: bool)
    ensures
        r == seen@.map_values(|s: String| s@).contains(f@),
{
    let ghost sv = seen@.map_values(|s: String| s@);
    let mut k: usize = 0;
    while k < seen.len()
        invariant
            k <= seen@.len(),
            sv == seen@.map_values(|s: String| s@),
            forall|j: int| 0 <= j < k ==> sv[j] != f@,
        decreases seen@.len() - k,
    {
        if str_eq(seen[k].as_str(), f) {
            assert(sv[k as int] == f@);
            return true;
        }
        k = k + 1;
    }
    false
}

fn relative_name(root: &str, file: &str) -> (r: Option<String>)
    ensures
        crate::pattern::opt_string_view(r) == relative_to(root@, file@),
{
    let rc = chars_of(root);
    let fc = chars_of(file);
    if rc.len() == 0 || fc.len() <= rc.len() {
        return None;
    }
    if !crate::text::starts_with_chars(fc.as_slice(), rc.as_slice()) {
        proof {
            assert(!crate::text::starts_with(fc@, rc@));
        }
        return None;
    }
    assert(fc@.take(rc@.len() as int) =~= rc@);
    if rc[rc.len() - 1] == '/' {
        Some(crate::text::string_of_range(fc.as_slice(), rc.len(), fc.len()))
    } else if fc[rc.len()] == '/' && fc.len() > rc.len() + 1 {
        Some(crate::text::string_of_range(fc.as_slice(), rc.len() + 1, fc.len()))
    } else {
        None
    }
}

/// Takes the files of one location (see `take_files`).
fn take_location_files(
    out: &mut Vec<LibraryFile>,
    seen: &mut Vec<String>,
    files: &Vec<String>,
    kind: &str,
    editable: bool,
    root: &str,
    shown: &str,
) -> (r: Result<(), String>)
    ensures
        match take_files(
            files@.map_values(|s: String| s@),
            files@.len() as int,
            kind@,
            editable,
            root@,
            shown@,
            (old(out)@.map_values(|f: LibraryFile| file_view(f)), old(seen)@.map_values(|s: String| s@)),
        ) {
            Err(e) => r matches Err(x) && x@ == e,
            Ok((fs, sn)) => r is Ok && final(out)@.map_values(|f: LibraryFile| file_view(f)) == fs
                && final(seen)@.map_values(|s: String| s@) == sn,
        },
{
    let ghost fv = files@.map_values(|s: String| s@);
    let ghost start = (out@.map_values(|f: LibraryFile| file_view(f)), seen@.map_values(|s: String| s@));
    let mut k: usize = 0;
    while k < files.len()
        invariant
            k <= files@.len(),
            fv == files@.map_values(|s: String| s@),
            start == (old(out)@.map_values(|f: LibraryFile| file_view(f)), old(seen)@.map_values(|s: String| s@)),
            take_files(fv, k as int, kind@, editable, root@, shown@, start) == Ok::<
                (Seq<FileView>, Seq<Seq<char>>),
                Seq<char>,
            >((out@.map_values(|f: LibraryFile| file_view(f)), seen@.map_values(|s: String| s@))),
        decreases files@.len() - k,
    {
        let f = files[k].as_str();
        assert(fv[k as int] == f@);
        if is_supported_library_file(f) && !seen_has(seen, f) {
            let name = if editable {
                match relative_name(root, f) {
                    Some(n) => n,
                    None => {
                        let mut v: Vec<char> = Vec::new();
                        extend_str(&mut v, "Generated library file must stay inside ");
                        extend_str(&mut v, shown);
                        proof {
                            assert(supported_library_file(fv[k as int]));
                            assert(take_files(fv, k as int + 1, kind@, editable, root@, shown@, start) == Err::<
                                (Seq<FileView>, Seq<Seq<char>>),
                                Seq<char>,
                            >(v@));
                            lemma_take_files_error_stays(fv, k as int + 1, files@.len() as int, kind@, editable, root@, shown@, start);
                            assert(start == (old(out)@.map_values(|f: LibraryFile| file_view(f)), old(seen)@.map_values(|s: String| s@)));
                            assert(take_files(fv, files@.len() as int, kind@, editable, root@, shown@, start) == Err::<
                                (Seq<FileView>, Seq<Seq<char>>),
                                Seq<char>,
                            >(v@));
                        }
                        return Err(string_from(v.as_slice()));
                    },
                }
            } else {
                label_copy(f)
            };
            let ghost fb = out@.map_values(|f: LibraryFile| file_view(f));
            let ghost sb = seen@.map_values(|s: String| s@);
            out.push(LibraryFile { path: label_copy(f), source_file: name, source_kind: label_copy(kind), editable });
            seen.push(label_copy(f));
            assert(out@.map_values(|f: LibraryFile| file_view(f)) =~= fb.push(file_view(out@.last())));
            assert(seen@.map_values(|s: String| s@) =~= sb.push(f@));
        }
        k = k + 1;
    }
    assert(fv.len() == files@.len());
    Ok(())
}

proof fn lemma_take_files_error_stays(
    files: Seq<Seq<char>>,
    m: int,
    k: int,
    kind: Seq<char>,
    editable: bool,
    root: Seq<char>,
    shown: Seq<char>,
    start: (Seq<FileView>, Seq<Seq<char>>),
)
    requires
        0 <= m <= k,
        take_files(files, m, kind, editable, root, shown, start) is Err,
    ensures
        take_files(files, k, kind, editable, root, shown, start) == take_files(files, m, kind, editable, root, shown, start),
    decreases k - m,
{
    if k > m {
        lemma_take_files_error_stays(files, m, k - 1, kind, editable, root, shown, start);
    }
}

proof fn lemma_discovery_error_stays(output: FoundLocation, configured: Seq<FoundLocation>, m: int, k: int)
    requires
        0 <= m <= k,
        configured_discovery(output, configured, m) is Err,
    ensures
        configured_discovery(output, configured, k) == configured_discovery(output, configured, m),
    decreases k - m,
{
    if k > m {
        lemma_discovery_error_stays(output, configured, m, k - 1);
    }
}

/// The library files a scan reads and the locations it lists (see `configured_discovery`),
/// files and locations ordered by path (see `files_by_path`, `sources_by_path`), and a
/// location written exactly as the one before it listed once; refused when an exported file
/// lies outside the export folder.
pub fn discover_library_files(output: &FoundLocation, configured: &[FoundLocation]) -> (r: Result<
    (Vec<LibraryFile>, Vec<LibrarySource>),
    String,
>)
    ensures
        match configured_discovery(*output, configured@, configured@.len() as int) {
            Err(e) => r matches Err(x) && x@ == e,
            Ok(d) => r matches Ok((fs, ss)) && fs@.map_values(|f: LibraryFile| file_view(f))
                == files_by_path(d.files, d.files.len() as int) && ss@.map_values(
                |s: LibrarySource| source_view(s),
            ) == {
                let sorted = sources_by_path(d.sources, d.sources.len() as int);
                without_repeats(sorted, sorted.len() as int)
            },
        },
{
    let mut files: Vec<LibraryFile> = Vec::new();
    let mut seen: Vec<String> = Vec::new();
    let mut sources: Vec<LibrarySource> = Vec::new();
    assert(files@.map_values(|f: LibraryFile| file_view(f)) =~= Seq::<FileView>::empty());
    assert(seen@.map_values(|s: String| s@) =~= Seq::<Seq<char>>::empty());
    if output.exists {
        match take_location_files(
            &mut files,
            &mut seen,
            &output.files,
            "export",
            true,
            output.canonical.as_str(),
            output.path.as_str(),
        ) {
            Err(e) => {
                proof {
                    reveal_strlit("export");
                    lemma_discovery_error_stays(*output, configured@, 0, configured@.len() as int);
                }
                return Err(e);
            },
            Ok(()) => {},
        }
        sources.push(LibrarySource { path: label_copy(output.path.as_str()), kind: label_copy("export"), configured: false });
    }
    proof {
        reveal_strlit("export");
        assert(files@.map_values(|f: LibraryFile| file_view(f)) =~= configured_discovery(*output, configured@, 0)->Ok_0.files);
        assert(sources@.map_values(|s: LibrarySource| source_view(s)) =~= configured_discovery(*output, configured@, 0)->Ok_0.sources);
    }
    let mut n: usize = 0;
    while n < configured.len()
        invariant
            n <= configured@.len(),
            configured_discovery(*output, configured@, n as int) matches Ok(d) && d.files == files@.map_values(
                |f: LibraryFile| file_view(f),
            ) && d.seen == seen@.map_values(|s: String| s@) && d.sources == sources@.map_values(
                |s: LibrarySource| source_view(s),
            ),
        decreases configured@.len() - n,
    {
        let c = &configured[n];
        if c.exists && c.files.len() > 0 {
            let kind = if is_standard_kicad_path(c.path.as_str()) {
                "kicad_standard"
            } else {
                "external"
            };
            proof {
                reveal_strlit("kicad_standard");
                reveal_strlit("external");
            }
            assert(kind@ == configured_kind(c.path@));
            match take_location_files(&mut files, &mut seen, &c.files, kind, false, "", "") {
                Err(e) => {
                    proof {
                        reveal_strlit("");
                        assert(""@ =~= Seq::<char>::empty());
                        lemma_discovery_error_stays(*output, configured@, n as int + 1, configured@.len() as int);
                    }
                    return Err(e);
                },
                Ok(()) => {},
            }
            proof {
                reveal_strlit("");
                assert(""@ =~= Seq::<char>::empty());
            }
            let ghost sb = sources@.map_values(|s: LibrarySource| source_view(s));
            sources.push(LibrarySource { path: label_copy(c.path.as_str()), kind: label_copy(kind), configured: true });
            assert(sources@.map_values(|s: LibrarySource| source_view(s)) =~= sb.push((c.path@, kind@, true)));
        }
        n = n + 1;
    }
    let ghost d = configured_discovery(*output, configured@, configured@.len() as int)->Ok_0;
    assert(d.files.len() == files@.len());
    assert(d.sources.len() == sources@.len());
    let sorted_files = sort_files(files);
    let sorted_sources = sort_sources(sources);
    let unique = drop_repeats(&sorted_sources);
    proof {
        let sorted = sources_by_path(d.sources, d.sources.len() as int);
        assert(sorted == sorted_sources@.map_values(|s: LibrarySource| source_view(s)));
        assert(sorted.len() == sorted_sources@.len());
    }
    Ok((sorted_files, unique))
}

fn sort_files(v: Vec<LibraryFile>) -> (r: Vec<LibraryFile>)
    ensures
        r@.map_values(|f: LibraryFile| file_view(f)) == files_by_path(
            v@.map_values(|f: LibraryFile| file_view(f)),
            v@.len() as int,
        ),
{
    let ghost sv = v@.map_values(|f: LibraryFile| file_view(f));
    let mut out: Vec<LibraryFile> = Vec::new();
    let mut keys: Vec<Vec<Vec<char>>> = Vec::new();
    let mut k: usize = 0;
    while k < v.len()
        invariant
            k <= v@.len(),
            sv == v@.map_values(|f: LibraryFile| file_view(f)),
            out@.map_values(|f: LibraryFile| file_view(f)) == files_by_path(sv, k as int),
            keys@.len() == out@.len(),
            forall|i: int| 0 <= i < keys@.len() ==> (#[trigger] keys@[i])@.map_values(|c: Vec<char>| c@)
                == path_segments(out@[i].path@),
        decreases v@.len() - k,
    {
        let x = LibraryFile {
            path: label_copy(v[k].path.as_str()),
            source_file: label_copy(v[k].source_file.as_str()),
            source_kind: label_copy(v[k].source_kind.as_str()),
            editable: v[k].editable,
        };
        let key = path_key(x.path.as_str());
        let ghost t = out@.map_values(|f: LibraryFile| file_view(f));
        let mut p: usize = 0;
        while p < out.len() && !segments_less(&key, &keys[p])
            invariant
                p <= out@.len(),
                keys@.len() == out@.len(),
                t == out@.map_values(|f: LibraryFile| file_view(f)),
                forall|i: int| 0 <= i < keys@.len() ==> (#[trigger] keys@[i])@.map_values(|c: Vec<char>| c@)
                    == path_segments(out@[i].path@),
                key@.map_values(|c: Vec<char>| c@) == path_segments(x.path@),
                place_file(t, file_view(x), 0) == place_file(t, file_view(x), p as int),
            decreases out@.len() - p,
        {
            assert(t[p as int].0 == out@[p as int].path@);
            p = p + 1;
        }
        proof {
            if p < out@.len() {
                assert(t[p as int].0 == out@[p as int].path@);
            }
            lemma_place_file(t, file_view(x), p as int);
        }
        assert(file_view(x) == sv[k as int]);
        out.insert(p, x);
        keys.insert(p, key);
        assert(out@.map_values(|f: LibraryFile| file_view(f)) =~= t.insert(p as int, sv[k as int]));
        k = k + 1;
    }
    out
}

fn sort_sources(v: Vec<LibrarySource>) -> (r: Vec<LibrarySource>)
    ensures
        r@.map_values(|s: LibrarySource| source_view(s)) == sources_by_path(
            v@.map_values(|s: LibrarySource| source_view(s)),
            v@.len() as int,
        ),
{
    let ghost sv = v@.map_values(|s: LibrarySource| source_view(s));
    let mut out: Vec<LibrarySource> = Vec::new();
    let mut keys: Vec<Vec<Vec<char>>> = Vec::new();
    let mut k: usize = 0;
    while k < v.len()
        invariant
            k <= v@.len(),
            sv == v@.map_values(|s: LibrarySource| source_view(s)),
            out@.map_values(|s: LibrarySource| source_view(s)) == sources_by_path(sv, k as int),
            keys@.len() == out@.len(),
            forall|i: int| 0 <= i < keys@.len() ==> (#[trigger] keys@[i])@.map_values(|c: Vec<char>| c@)
                == path_segments(out@[i].path@),
        decreases v@.len() - k,
    {
        let x = LibrarySource { path: label_copy(v[k].path.as_str()), kind: label_copy(v[k].kind.as_str()), configured: v[k].configured };
        let key = path_key(x.path.as_str());
        let ghost t = out@.map_values(|s: LibrarySource| source_view(s));
        let mut p: usize = 0;
        while p < out.len() && !segments_less(&key, &keys[p])
            invariant
                p <= out@.len(),
                keys@.len() == out@.len(),
                t == out@.map_values(|s: LibrarySource| source_view(s)),
                forall|i: int| 0 <= i < keys@.len() ==> (#[trigger] keys@[i])@.map_values(|c: Vec<char>| c@)
                    == path_segments(out@[i].path@),
                key@.map_values(|c: Vec<char>| c@) == path_segments(x.path@),
                place_source(t, source_view(x), 0) == place_source(t, source_view(x), p as int),
            decreases out@.len() - p,
        {
            assert(t[p as int].0 == out@[p as int].path@);
            p = p + 1;
        }
        proof {
            if p < out@.len() {
                assert(t[p as int].0 == out@[p as int].path@);
            }
            lemma_place_source(t, source_view(x), p as int);
        }
        assert(source_view(x) == sv[k as int]);
        out.insert(p, x);
        keys.insert(p, key);
        assert(out@.map_values(|s: LibrarySource| source_view(s)) =~= t.insert(p as int, sv[k as int]));
        k = k + 1;
    }
    out
}

fn drop_repeats(v: &Vec<LibrarySource>) -> (r: Vec<LibrarySource>)
    ensures
        r@.map_values(|s: LibrarySource| source_view(s)) == without_repeats(
            v@.map_values(|s: LibrarySource| source_view(s)),
            v@.len() as int,
        ),
{
    let ghost sv = v@.map_values(|s: LibrarySource| source_view(s));
    let mut out: Vec<LibrarySource> = Vec::new();
    let mut k: usize = 0;
    while k < v.len()
        invariant
            k <= v@.len(),
            sv == v@.map_values(|s: LibrarySource| source_view(s)),
            out@.map_values(|s: LibrarySource| source_view(s)) == without_repeats(sv, k as int),
        decreases v@.len() - k,
    {
        let repeat = k >= 1 && str_eq(v[k - 1].path.as_str(), v[k].path.as_str());
        if !repeat {
            let ghost before = out@.map_values(|s: LibrarySource| source_view(s));
            out.push(LibrarySource { path: label_copy(v[k].path.as_str()), kind: label_copy(v[k].kind.as_str()), configured: v[k].configured });
            assert(out@.map_values(|s: LibrarySource| source_view(s)) =~= before.push(sv[k as int]));
        }
        k = k + 1;
    }
    out
}

} // verus!
