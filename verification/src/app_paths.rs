//! Where the desktop app keeps its settings, data and cache files.
use vstd::prelude::*;
use crate::text::{chars_of, chars_eq, split_chars, split_on, str_eq, string_from, trim, trim_str};
use crate::paths::{join, join_path};

verus! {

/// The app's folders, and the folder of the program itself when older versions kept their
/// files beside it.
#[derive(Clone, Debug, PartialEq, Eq)]
pub struct AppPaths {
    config_dir: String,
    data_dir: String,
    cache_dir: String,
    legacy_exe_dir: Option<String>,
}

/// The pieces of a path that `Path` compares: whether it is absolute, whether it starts
/// with `.`, and its named components (empty pieces and other `.` pieces dropped).
pub open spec fn path_key(p: Seq<char>) -> (bool, bool, Seq<Seq<char>>) {
    let parts = split_on(p, '/');
    (
        p.len() > 0 && p[0] == '/',
        parts[0] == "."@,
        parts.filter(|c: Seq<char>| c.len() > 0 && c != "."@),
    )
}

/// `a` and `b` name the same path as `Path`'s `==` compares them.
pub open spec fn same_path(a: Seq<char>, b: Seq<char>) -> bool {
    path_key(a) == path_key(b)
}

fn key_pieces(p: &str) -> (r: (bool, bool, Vec<Vec<char>>))
    ensures
        r.0 == path_key(p@).0,
        r.1 == path_key(p@).1,
        r.2@.map_values(|v: Vec<char>| v@) == path_key(p@).2,
{
    let cs = chars_of(p);
    let parts = split_chars(cs.as_slice(), '/');
    proof {
        crate::text::lemma_split_prefix_nonempty(p@, '/', p@.len() as int);
    }
    let ghost sp = split_on(p@, '/');
    let dot = chars_of(".");
    let absolute = cs.len() > 0 && cs[0] == '/';
    let cur = chars_eq(parts[0].as_slice(), dot.as_slice());
    let mut kept: Vec<Vec<char>> = Vec::new();
    let mut k: usize = 0;
    while k < parts.len()
        invariant
            k <= parts@.len(),
            parts@.len() == sp.len(),
            forall|j: int| 0 <= j < parts@.len() ==> (#[trigger] parts@[j])@ == sp[j],
            dot@ == "."@,
            kept@.map_values(|v: Vec<char>| v@) == sp.take(k as int).filter(
                |c: Seq<char>| c.len() > 0 && c != "."@,
            ),
        decreases parts@.len() - k,
    {
        proof {
            reveal(Seq::filter);
            assert(sp.take(k + 1).drop_last() =~= sp.take(k as int));
            assert(sp.take(k + 1).last() == parts@[k as int]@);
        }
        let ghost before = kept@.map_values(|v: Vec<char>| v@);
        if parts[k].len() > 0 && !chars_eq(parts[k].as_slice(), dot.as_slice()) {
            let mut copy: Vec<char> = Vec::new();
            crate::text::extend_chars(&mut copy, parts[k].as_slice());
            kept.push(copy);
            assert(kept@.map_values(|v: Vec<char>| v@) =~= before.push(sp[k as int]));
        }
        k = k + 1;
    }
    assert(sp.take(parts@.len() as int) =~= sp);
    (absolute, cur, kept)
}

/// Whether `a` and `b` name the same path (see `same_path`).
pub fn paths_equal(a: &str, b: &str) -> (r: bool)
    ensures
        r == same_path(a@, b@),
{
    let (a0, a1, a2) = key_pieces(a);
    let (b0, b1, b2) = key_pieces(b);
    if a0 != b0 || a1 != b1 || a2.len() != b2.len() {
        if a2.len() != b2.len() {
            assert(path_key(a@).2.len() != path_key(b@).2.len());
        }
        return false;
    }
    let ghost av = a2@.map_values(|v: Vec<char>| v@);
    let ghost bv = b2@.map_values(|v: Vec<char>| v@);
    let mut k: usize = 0;
    while k < a2.len()
        invariant
            k <= a2@.len(),
            a2@.len() == b2@.len(),
            av == a2@.map_values(|v: Vec<char>| v@),
            bv == b2@.map_values(|v: Vec<char>| v@),
            av == path_key(a@).2,
            bv == path_key(b@).2,
            forall|j: int| 0 <= j < k ==> av[j] == bv[j],
        decreases a2@.len() - k,
    {
        if !chars_eq(a2[k].as_slice(), b2[k].as_slice()) {
            assert(av[k as int] != bv[k as int]);
            return false;
        }
        k = k + 1;
    }
    assert(av =~= bv);
    true
}

pub open spec fn opt_join(dir: Option<String>, name: Seq<char>) -> Option<Seq<char>> {
    match dir {
        Some(d) => Some(join(d@, name)),
        None => None,
    }
}

fn owned(s: &str) -> (r: String)
    ensures
        r@ == s@,
{
    s.to_owned()
}

impl AppPaths {
    pub closed spec fn config_spec(&self) -> Seq<char> {
        self.config_dir@
    }

    pub closed spec fn data_spec(&self) -> Seq<char> {
        self.data_dir@
    }

    pub closed spec fn cache_spec(&self) -> Seq<char> {
        self.cache_dir@
    }

    pub closed spec fn legacy_spec(&self) -> Option<Seq<char>> {
        match self.legacy_exe_dir {
            Some(d) => Some(d@),
            None => None,
        }
    }

    /// The app's folders as given.
    pub fn new(config_dir: String, data_dir: String, cache_dir: String, legacy_exe_dir: Option<String>) -> (r: Self)
        ensures
            r.config_spec() == config_dir@,
            r.data_spec() == data_dir@,
            r.cache_spec() == cache_dir@,
            r.legacy_spec() == match legacy_exe_dir {
                Some(d) => Some(d@),
                None => None,
            },
    {
        AppPaths { config_dir, data_dir, cache_dir, legacy_exe_dir }
    }

    /// The app's folders as given, for tests.
    pub fn for_test(config_dir: String, data_dir: String, cache_dir: String, legacy_exe_dir: Option<String>) -> (r: Self)
        ensures
            r.config_spec() == config_dir@,
            r.data_spec() == data_dir@,
            r.cache_spec() == cache_dir@,
            r.legacy_spec() == match legacy_exe_dir {
                Some(d) => Some(d@),
                None => None,
            },
    {
        AppPaths::new(config_dir, data_dir, cache_dir, legacy_exe_dir)
    }

    /// The settings file.
    pub fn config_file(&self) -> (r: String)
        ensures
            r@ == join(self.config_spec(), "export_config.json"@),
    {
        join_path(self.config_dir.as_str(), "export_config.json")
    }

    /// The settings file that older versions kept beside the program.
    pub fn legacy_config_file(&self) -> (r: Option<String>)
        ensures
            match r {
                Some(p) => self.legacy_spec() matches Some(d) && p@ == join(d, "export_config.json"@),
                None => self.legacy_spec() is None,
            },
    {
        match &self.legacy_exe_dir {
            Some(d) => Some(join_path(d.as_str(), "export_config.json")),
            None => None,
        }
    }

    /// The text settings file that older versions kept beside the program.
    pub fn legacy_config_text_file(&self) -> (r: Option<String>)
        ensures
            match r {
                Some(p) => self.legacy_spec() matches Some(d) && p@ == join(d, "export_config.txt"@),
                None => self.legacy_spec() is None,
            },
    {
        match &self.legacy_exe_dir {
            Some(d) => Some(join_path(d.as_str(), "export_config.txt")),
            None => None,
        }
    }

    /// The default history file.
    pub fn default_history_file(&self) -> (r: String)
        ensures
            r@ == join(self.data_spec(), "history.txt"@),
    {
        join_path(self.data_dir.as_str(), "history.txt")
    }

    /// The default file of matched parts.
    pub fn default_matched_file(&self) -> (r: String)
        ensures
            r@ == join(self.data_spec(), "matched.txt"@),
    {
        join_path(self.data_dir.as_str(), "matched.txt")
    }

    /// The default file of imported parts.
    pub fn default_imported_parts_file(&self) -> (r: String)
        ensures
            r@ == join(self.data_spec(), "imported_lcsc_parts.txt"@),
    {
        join_path(self.data_dir.as_str(), "imported_lcsc_parts.txt")
    }

    /// The inventory database.
    pub fn inventory_database_file(&self) -> (r: String)
        ensures
            r@ == join(self.data_spec(), "inventory.db"@),
    {
        join_path(self.data_dir.as_str(), "inventory.db")
    }

    /// The default export folder.
    pub fn default_export_output_dir(&self) -> (r: String)
        ensures
            r@ == join(self.data_spec(), "export"@),
    {
        join_path(self.data_dir.as_str(), "export")
    }

    pub fn default_history_save_path_string(&self) -> (r: String)
        ensures
            r@ == join(self.data_spec(), "history.txt"@),
    {
        self.default_history_file()
    }

    pub fn default_matched_save_path_string(&self) -> (r: String)
        ensures
            r@ == join(self.data_spec(), "matched.txt"@),
    {
        self.default_matched_file()
    }

    pub fn default_imported_parts_save_path_string(&self) -> (r: String)
        ensures
            r@ == join(self.data_spec(), "imported_lcsc_parts.txt"@),
    {
        self.default_imported_parts_file()
    }

    pub fn default_export_output_dir_string(&self) -> (r: String)
        ensures
            r@ == join(self.data_spec(), "export"@),
    {
        self.default_export_output_dir()
    }

    pub fn default_export_output_path_string(&self) -> (r: String)
        ensures
            r@ == join(self.data_spec(), "export"@),
    {
        self.default_export_output_dir_string()
    }

    /// The cache folder.
    pub fn cache_dir(&self) -> (r: &str)
        ensures
            r@ == self.cache_spec(),
    {
        self.cache_dir.as_str()
    }

    /// `path` names the file `legacy_name` that older versions kept: by that bare name, or
    /// beside the program.
    pub open spec fn legacy_default(&self, path: Seq<char>, legacy_name: Seq<char>) -> bool {
        path == legacy_name || match self.legacy_spec() {
            Some(d) => same_path(join(d, legacy_name), path),
            None => false,
        }
    }

    /// A save path as the user gave it, trimmed; blank paths and the legacy defaults map to
    /// the default in the app's data folder.
    pub open spec fn resolved_save_path(&self, path: Seq<char>, legacy_name: Seq<char>, default: Seq<char>) -> Seq<char> {
        let t = trim(path);
        if t.len() == 0 || self.legacy_default(t, legacy_name) {
            default
        } else {
            t
        }
    }

    fn is_legacy_monitor_default(&self, path: &str, legacy_name: &str) -> (r: bool)
        ensures
            r == self.legacy_default(path@, legacy_name@),
    {
        if str_eq(path, legacy_name) {
            return true;
        }
        match &self.legacy_exe_dir {
            Some(d) => {
                let lp = join_path(d.as_str(), legacy_name);
                paths_equal(lp.as_str(), path)
            },
            None => false,
        }
    }

    fn resolve_monitor_save_path(&self, path: &str, legacy_name: &str, default: String) -> (r: String)
        ensures
            r@ == self.resolved_save_path(path@, legacy_name@, default@),
    {
        let t = trim_str(path);
        if t.as_str().is_empty() || self.is_legacy_monitor_default(t.as_str(), legacy_name) {
            default
        } else {
            t
        }
    }

    /// Where history is saved, for the path the user gave.
    pub fn resolve_history_save_path(&self, path: &str) -> (r: String)
        ensures
            r@ == self.resolved_save_path(path@, "history.txt"@, join(self.data_spec(), "history.txt"@)),
    {
        let d = self.default_history_file();
        self.resolve_monitor_save_path(path, "history.txt", d)
    }

    /// Where matched parts are saved, for the path the user gave.
    pub fn resolve_matched_save_path(&self, path: &str) -> (r: String)
        ensures
            r@ == self.resolved_save_path(path@, "matched.txt"@, join(self.data_spec(), "matched.txt"@)),
    {
        let d = self.default_matched_file();
        self.resolve_monitor_save_path(path, "matched.txt", d)
    }

    /// Where imported parts are saved, for the path the user gave.
    pub fn resolve_imported_parts_save_path(&self, path: &str) -> (r: String)
        ensures
            r@ == self.resolved_save_path(
                path@,
                "imported_lcsc_parts.txt"@,
                join(self.data_spec(), "imported_lcsc_parts.txt"@),
            ),
    {
        let d = self.default_imported_parts_file();
        self.resolve_monitor_save_path(path, "imported_lcsc_parts.txt", d)
    }

    /// The export folder for the path the user gave: trimmed, or the default when blank.
    pub fn resolve_export_output_path(&self, path: &str) -> (r: String)
        ensures
            r@ == if trim(path@).len() == 0 {
                join(self.data_spec(), "export"@)
            } else {
                trim(path@)
            },
    {
        let t = trim_str(path);
        if t.as_str().is_empty() {
            self.default_export_output_dir_string()
        } else {
            t
        }
    }
}

} // verus!
