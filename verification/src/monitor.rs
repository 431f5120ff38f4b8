//! The clipboard monitor's state: what was copied, which component numbers were found in
//! it, and the export settings shown beside them.
use vstd::prelude::*;
use crate::text::{chars_of, extend_chars, extend_str, str_eq, string_from, trim, trim_str, decimal, decimal_chars};
use crate::paths::{join, join_path};
use crate::app_paths::AppPaths;
use crate::config::{ExportPathMode, ModelFormat};
use crate::extract::{extract_by_keyword, keyword_result};
use crate::pattern::opt_string_view;

verus! {

/// A time of day written `HH:MM:SS`: two digits, a colon, two digits, a colon, two digits.
pub open spec fn time_of_day(t: Seq<char>) -> bool {
    &&& t.len() == 8
    &&& t[2] == ':' && t[5] == ':'
    &&& forall|i: int| 0 <= i < 8 && i != 2 && i != 5 ==> '0' <= #[trigger] t[i] <= '9'
}

/// The local time of day as `HH:MM:SS`.
///
/// `chrono::Local::now` then `DateTime::format` with `%H:%M:%S`, which writes the hour,
/// minute and second as two zero-padded digits each. Which time it is depends on the
/// clock and the machine's time zone, so only that shape is stated.
#[verifier::external_body]
fn local_time_hms() -> (r: String)
    ensures
        time_of_day(r@),
{
    chrono::Local::now().format("%H:%M:%S").to_string()
}

/// How many new numbers a merge added, and how many were already listed.
#[derive(Debug, Clone, Copy, PartialEq, Eq)]
pub struct MatchedMergeStats {
    pub added: usize,
    pub already_present: usize,
}

/// A timed entry: when, and what.
pub type Timed = (Seq<char>, Seq<char>);

pub open spec fn timed_view(v: Seq<(String, String)>) -> Seq<Timed> {
    v.map_values(|e: (String, String)| (e.0@, e.1@))
}

/// The ids of timed entries, in order.
pub open spec fn ids_of(v: Seq<Timed>) -> Seq<Seq<char>> {
    v.map_values(|e: Timed| e.1)
}

/// The most entries the debug log and the history keep.
pub open spec fn log_limit() -> nat {
    50
}

/// The debug log after adding `msg` at its front, dropping the oldest beyond the limit.
pub open spec fn logged(log: Seq<Seq<char>>, msg: Seq<char>) -> Seq<Seq<char>> {
    let l = seq![msg] + log;
    if l.len() > log_limit() {
        l.drop_last()
    } else {
        l
    }
}

/// The ids of `ids` in order, each kept where it first occurs.
pub open spec fn distinct_in_order(ids: Seq<Seq<char>>) -> Seq<Seq<char>>
    decreases ids.len(),
{
    if ids.len() == 0 {
        Seq::empty()
    } else {
        let prev = distinct_in_order(ids.drop_last());
        if prev.contains(ids.last()) {
            prev
        } else {
            prev.push(ids.last())
        }
    }
}

/// The entries that merging `ids` at `time` adds to a list already holding `existing`: each
/// id not held yet, once, in order.
pub open spec fn merge_additions(existing: Seq<Seq<char>>, ids: Seq<Seq<char>>) -> Seq<Seq<char>>
    decreases ids.len(),
{
    if ids.len() == 0 {
        Seq::empty()
    } else {
        let prev = merge_additions(existing, ids.drop_last());
        let x = ids.last();
        if existing.contains(x) || prev.contains(x) {
            prev
        } else {
            prev.push(x)
        }
    }
}

/// The entries that a rematch adds from the history, given what the keyword found in each
/// history entry: each new id once, with the time of the first entry it came from.
pub open spec fn rematch_additions(
    existing: Seq<Seq<char>>,
    history: Seq<Timed>,
    found: Seq<Option<Seq<char>>>,
    n: int,
) -> Seq<Timed>
    decreases n,
{
    if n <= 0 {
        Seq::empty()
    } else {
        let prev = rematch_additions(existing, history, found, n - 1);
        match found[n - 1] {
            Some(x) => if existing.contains(x) || ids_of(prev).contains(x) {
                prev
            } else {
                prev.push((history[n - 1].0, x))
            },
            None => prev,
        }
    }
}

/// `t` with its first 50 characters kept.
pub open spec fn preview(t: Seq<char>) -> Seq<char> {
    if t.len() > 50 {
        t.take(50)
    } else {
        t
    }
}

/// A path the user typed, with `~` standing for the home folder (when it is known) and a
/// relative path taken from the working folder.
pub open spec fn resolved_user_path(value: Seq<char>, home: Option<Seq<char>>, cwd: Seq<char>) -> Seq<char> {
    let expanded = if value == "~"@ {
        match home {
            Some(h) => h,
            None => value,
        }
    } else if value.len() >= 2 && value[0] == '~' && value[1] == '/' && home is Some {
        join(home->0, value.skip(2))
    } else {
        value
    };
    if expanded.len() > 0 && expanded[0] == '/' {
        expanded
    } else {
        join(cwd, expanded)
    }
}

/// Resolves a path the user typed (see `resolved_user_path`).
pub fn resolve_user_path(value: &str, home: Option<&str>, cwd: &str) -> (r: String)
    ensures
        r@ == resolved_user_path(
            value@,
            match home {
                Some(h) => Some(h@),
                None => None,
            },
            cwd@,
        ),
{
    let v = chars_of(value);
    let expanded: String = if str_eq(value, "~") {
        match home {
            Some(h) => h.to_owned(),
            None => value.to_owned(),
        }
    } else if v.len() >= 2 && v[0] == '~' && v[1] == '/' && home.is_some() {
        let rest = crate::sexpr::slice_range(v.as_slice(), 2, v.len());
        let rs = string_from(rest.as_slice());
        assert(rs@ =~= value@.skip(2));
        join_path(home.unwrap(), rs.as_str())
    } else {
        value.to_owned()
    };
    let e = chars_of(expanded.as_str());
    if e.len() > 0 && e[0] == '/' {
        expanded
    } else {
        join_path(cwd, expanded.as_str())
    }
}

/// Everything the monitor window shows and edits.
pub struct MonitorState {
    pub last_content: String,
    pub history: Vec<(String, String)>,
    pub matched: Vec<(String, String)>,
    pub keyword: String,
    pub initialized: bool,
    pub monitoring: bool,
    pub always_on_top: bool,
    pub match_debug_log: Vec<String>,
    pub export_output_path: String,
    pub export_last_result: Option<String>,
    pub export_show_terminal: bool,
    pub export_parallel: usize,
    pub export_path_mode: ExportPathMode,
    pub export_symbol: bool,
    pub export_footprint: bool,
    pub export_model_3d: bool,
    pub export_overwrite_symbol: bool,
    pub export_overwrite_footprint: bool,
    pub export_overwrite_model_3d: bool,
    pub export_symbol_fill_color: Option<String>,
    pub export_running: bool,
    pub history_save_path: String,
    pub matched_save_path: String,
    pub imported_parts_save_path: String,
    pub kicad_library_paths: Vec<String>,
    pub default_model_format: ModelFormat,
    pub window_width: Option<u32>,
    pub window_height: Option<u32>,
    pub window_x: Option<i32>,
    pub window_y: Option<i32>,
    pub default_export_output_path: String,
}

impl MonitorState {
    pub open spec fn log(&self) -> Seq<Seq<char>> {
        self.match_debug_log@.map_values(|s: String| s@)
    }

    pub open spec fn matched_view(&self) -> Seq<Timed> {
        timed_view(self.matched@)
    }

    pub open spec fn history_view(&self) -> Seq<Timed> {
        timed_view(self.history@)
    }

    pub open spec fn default_output_spec(&self) -> Seq<char> {
        self.default_export_output_path@
    }

    /// The state of a fresh window: monitoring, every asset selected, nothing overwritten,
    /// and the app's default save locations.
    pub fn new(paths: &AppPaths) -> (r: Self)
        ensures
            r.last_content@.len() == 0,
            r.history@.len() == 0,
            r.matched@.len() == 0,
            r.keyword@.len() == 0,
            !r.initialized && r.monitoring && !r.always_on_top,
            r.match_debug_log@.len() == 0,
            r.export_output_path@ == join(paths.data_spec(), "export"@),
            r.default_output_spec() == join(paths.data_spec(), "export"@),
            r.export_last_result is None,
            r.export_show_terminal,
            r.export_parallel == 4,
            r.export_path_mode == ExportPathMode::Auto,
            r.export_symbol && r.export_footprint && r.export_model_3d,
            !r.export_overwrite_symbol && !r.export_overwrite_footprint && !r.export_overwrite_model_3d,
            r.export_symbol_fill_color is None,
            !r.export_running,
            r.history_save_path@ == join(paths.data_spec(), "history.txt"@),
            r.matched_save_path@ == join(paths.data_spec(), "matched.txt"@),
            r.imported_parts_save_path@ == join(paths.data_spec(), "imported_lcsc_parts.txt"@),
            r.kicad_library_paths@.len() == 0,
            r.default_model_format == ModelFormat::Wrl,
            r.window_width is None && r.window_height is None,
            r.window_x is None && r.window_y is None,
    {
        let default_export_output_path = paths.default_export_output_path_string();
        MonitorState {
            last_content: String::new(),
            history: Vec::new(),
            matched: Vec::new(),
            keyword: String::new(),
            initialized: false,
            monitoring: true,
            always_on_top: false,
            match_debug_log: Vec::new(),
            export_output_path: paths.default_export_output_path_string(),
            export_last_result: None,
            export_show_terminal: true,
            export_parallel: 4,
            export_path_mode: ExportPathMode::Auto,
            export_symbol: true,
            export_footprint: true,
            export_model_3d: true,
            export_overwrite_symbol: false,
            export_overwrite_footprint: false,
            export_overwrite_model_3d: false,
            export_symbol_fill_color: None,
            export_running: false,
            history_save_path: paths.default_history_save_path_string(),
            matched_save_path: paths.default_matched_save_path_string(),
            imported_parts_save_path: paths.default_imported_parts_save_path_string(),
            kicad_library_paths: Vec::new(),
            default_model_format: ModelFormat::Wrl,
            window_width: None,
            window_height: None,
            window_x: None,
            window_y: None,
            default_export_output_path,
        }
    }

    /// Puts `msg` at the front of the debug log, keeping the newest 50 entries.
    pub fn add_debug_log(&mut self, msg: String)
        ensures
            final(self).log() == logged(old(self).log(), msg@),
            *final(self) == (MonitorState { match_debug_log: final(self).match_debug_log, ..*old(self) }),
    {
        let ghost before = self.log();
        let ghost m = msg@;
        self.match_debug_log.insert(0, msg);
        assert(self.log() =~= seq![m] + before);
        if self.match_debug_log.len() > 50 {
            self.match_debug_log.pop();
            assert(self.log() =~= (seq![m] + before).drop_last());
        }
    }

    /// Switches every asset kind's export on or off; switching one off also stops
    /// overwriting it.
    pub fn set_export_symbol(&mut self, enabled: bool)
        ensures
            *final(self) == (MonitorState {
                export_symbol: enabled,
                export_overwrite_symbol: if enabled {
                    old(self).export_overwrite_symbol
                } else {
                    false
                },
                ..*old(self)
            }),
    {
        self.export_symbol = enabled;
        if !enabled {
            self.export_overwrite_symbol = false;
        }
    }

    pub fn set_export_footprint(&mut self, enabled: bool)
        ensures
            *final(self) == (MonitorState {
                export_footprint: enabled,
                export_overwrite_footprint: if enabled {
                    old(self).export_overwrite_footprint
                } else {
                    false
                },
                ..*old(self)
            }),
    {
        self.export_footprint = enabled;
        if !enabled {
            self.export_overwrite_footprint = false;
        }
    }

    pub fn set_export_model_3d(&mut self, enabled: bool)
        ensures
            *final(self) == (MonitorState {
                export_model_3d: enabled,
                export_overwrite_model_3d: if enabled {
                    old(self).export_overwrite_model_3d
                } else {
                    false
                },
                ..*old(self)
            }),
    {
        self.export_model_3d = enabled;
        if !enabled {
            self.export_overwrite_model_3d = false;
        }
    }

    /// Overwriting applies only to asset kinds that are exported.
    pub fn set_export_overwrite_symbol(&mut self, overwrite: bool)
        ensures
            *final(self) == (MonitorState {
                export_overwrite_symbol: old(self).export_symbol && overwrite,
                ..*old(self)
            }),
    {
        self.export_overwrite_symbol = self.export_symbol && overwrite;
    }

    pub fn set_export_overwrite_footprint(&mut self, overwrite: bool)
        ensures
            *final(self) == (MonitorState {
                export_overwrite_footprint: old(self).export_footprint && overwrite,
                ..*old(self)
            }),
    {
        self.export_overwrite_footprint = self.export_footprint && overwrite;
    }

    pub fn set_export_overwrite_model_3d(&mut self, overwrite: bool)
        ensures
            *final(self) == (MonitorState {
                export_overwrite_model_3d: old(self).export_model_3d && overwrite,
                ..*old(self)
            }),
    {
        self.export_overwrite_model_3d = self.export_model_3d && overwrite;
    }

    pub fn toggle_export_show_terminal(&mut self)
        ensures
            *final(self) == (MonitorState { export_show_terminal: !old(self).export_show_terminal, ..*old(self) }),
    {
        self.export_show_terminal = !self.export_show_terminal;
    }

    /// At least one worker.
    pub fn set_export_parallel(&mut self, parallel: usize)
        ensures
            *final(self) == (MonitorState {
                export_parallel: if parallel >= 1 {
                    parallel
                } else {
                    1
                },
                ..*old(self)
            }),
    {
        self.export_parallel = if parallel >= 1 {
            parallel
        } else {
            1
        };
    }

    pub fn set_export_path_mode(&mut self, path_mode: ExportPathMode)
        ensures
            *final(self) == (MonitorState { export_path_mode: path_mode, ..*old(self) }),
    {
        self.export_path_mode = path_mode;
    }

    /// The fill colour, trimmed; blank means none.
    pub fn set_export_symbol_fill_color(&mut self, color: Option<String>)
        ensures
            *final(self) == (MonitorState { export_symbol_fill_color: final(self).export_symbol_fill_color, ..*old(self) }),
            opt_string_view(final(self).export_symbol_fill_color) == match color {
                Some(c) => if trim(c@).len() == 0 {
                    None
                } else {
                    Some(trim(c@))
                },
                None => None,
            },
    {
        self.export_symbol_fill_color = match color {
            Some(c) => {
                let t = trim_str(c.as_str());
                if t.as_str().is_empty() {
                    None
                } else {
                    Some(t)
                }
            },
            None => None,
        };
    }

    /// The export folder the user typed: the default when blank, else resolved against the
    /// home folder `home` and the working folder `cwd`.
    pub fn set_export_output_path(&mut self, path: &str, home: Option<&str>, cwd: &str)
        ensures
            *final(self) == (MonitorState { export_output_path: final(self).export_output_path, ..*old(self) }),
            final(self).export_output_path@ == if trim(path@).len() == 0 {
                old(self).default_output_spec()
            } else {
                resolved_user_path(
                    trim(path@),
                    match home {
                        Some(h) => Some(h@),
                        None => None,
                    },
                    cwd@,
                )
            },
    {
        let t = trim_str(path);
        self.export_output_path = if t.as_str().is_empty() {
            self.default_export_output_path.clone()
        } else {
            resolve_user_path(t.as_str(), home, cwd)
        };
    }

    pub fn set_history_save_path(&mut self, path: String, paths: &AppPaths)
        ensures
            *final(self) == (MonitorState { history_save_path: final(self).history_save_path, ..*old(self) }),
            final(self).history_save_path@ == paths.resolved_save_path(
                path@,
                "history.txt"@,
                join(paths.data_spec(), "history.txt"@),
            ),
    {
        self.history_save_path = paths.resolve_history_save_path(path.as_str());
    }

    pub fn set_matched_save_path(&mut self, path: String, paths: &AppPaths)
        ensures
            *final(self) == (MonitorState { matched_save_path: final(self).matched_save_path, ..*old(self) }),
            final(self).matched_save_path@ == paths.resolved_save_path(
                path@,
                "matched.txt"@,
                join(paths.data_spec(), "matched.txt"@),
            ),
    {
        self.matched_save_path = paths.resolve_matched_save_path(path.as_str());
    }

    pub fn set_imported_parts_save_path(&mut self, path: String, paths: &AppPaths)
        ensures
            *final(self) == (MonitorState {
                imported_parts_save_path: final(self).imported_parts_save_path,
                ..*old(self)
            }),
            final(self).imported_parts_save_path@ == paths.resolved_save_path(
                path@,
                "imported_lcsc_parts.txt"@,
                join(paths.data_spec(), "imported_lcsc_parts.txt"@),
            ),
    {
        self.imported_parts_save_path = paths.resolve_imported_parts_save_path(path.as_str());
    }

    pub fn set_window_size(&mut self, width: u32, height: u32)
        ensures
            *final(self) == (MonitorState { window_width: Some(width), window_height: Some(height), ..*old(self) }),
    {
        self.window_width = Some(width);
        self.window_height = Some(height);
    }

    pub fn set_window_position(&mut self, x: i32, y: i32)
        ensures
            *final(self) == (MonitorState { window_x: Some(x), window_y: Some(y), ..*old(self) }),
    {
        self.window_x = Some(x);
        self.window_y = Some(y);
    }

    /// Whether any asset kind is selected for export.
    pub fn export_has_export_targets(&self) -> (r: bool)
        ensures
            r == (self.export_symbol || self.export_footprint || self.export_model_3d),
    {
        self.export_symbol || self.export_footprint || self.export_model_3d
    }

    /// Removes history entry `index`, if there is one.
    pub fn delete_history(&mut self, index: usize)
        ensures
            *final(self) == (MonitorState { history: final(self).history, ..*old(self) }),
            final(self).history@ == if index < old(self).history@.len() {
                old(self).history@.remove(index as int)
            } else {
                old(self).history@
            },
    {
        if index < self.history.len() {
            self.history.remove(index);
        }
    }

    /// Removes matched entry `index`, if there is one.
    pub fn delete_matched(&mut self, index: usize)
        ensures
            *final(self) == (MonitorState { matched: final(self).matched, ..*old(self) }),
            final(self).matched@ == if index < old(self).matched@.len() {
                old(self).matched@.remove(index as int)
            } else {
                old(self).matched@
            },
    {
        if index < self.matched.len() {
            self.matched.remove(index);
        }
    }

    /// The matched ids, each once, in list order.
    pub fn get_unique_ids(&self) -> (r: Vec<String>)
        ensures
            r@.map_values(|s: String| s@) == distinct_in_order(ids_of(self.matched_view())),
    {
        let ghost ids = ids_of(self.matched_view());
        let mut out: Vec<String> = Vec::new();
        let mut k: usize = 0;
        while k < self.matched.len()
            invariant
                k <= self.matched@.len(),
                ids == ids_of(self.matched_view()),
                out@.map_values(|s: String| s@) == distinct_in_order(ids.take(k as int)),
            decreases self.matched@.len() - k,
        {
            let id = &self.matched[k].1;
            assert(ids[k as int] == id@);
            assert(ids.take(k + 1).drop_last() =~= ids.take(k as int));
            let ghost prev = out@.map_values(|s: String| s@);
            if !contains_string(&out, id.as_str()) {
                out.push(id.clone());
                assert(out@.map_values(|s: String| s@) =~= prev.push(id@));
            }
            k = k + 1;
        }
        assert(ids.take(self.matched@.len() as int) =~= ids);
        out
    }

    /// Adds each id of `ids` that is not listed yet, once, at the front of the matched list
    /// in the order given, stamped `timestamp`; counts the ids that were already there.
    pub fn merge_matched_ids(&mut self, ids: Vec<String>, timestamp: String) -> (r: MatchedMergeStats)
        ensures
            *final(self) == (MonitorState { matched: final(self).matched, ..*old(self) }),
            ({
                let add = merge_additions(ids_of(old(self).matched_view()), ids@.map_values(|s: String| s@));
                &&& final(self).matched_view() == add.map_values(|x: Seq<char>| (timestamp@, x)) + old(self).matched_view()
                &&& r.added == add.len()
                &&& r.added + r.already_present == ids@.len()
            }),
    {
        let ghost existing = ids_of(self.matched_view());
        let ghost iv = ids@.map_values(|s: String| s@);
        let mut additions: Vec<(String, String)> = Vec::new();
        let mut already_present: usize = 0;
        let mut k: usize = 0;
        while k < ids.len()
            invariant
                k <= ids@.len(),
                iv == ids@.map_values(|s: String| s@),
                existing == ids_of(self.matched_view()),
                timed_view(additions@) == merge_additions(existing, iv.take(k as int)).map_values(
                    |x: Seq<char>| (timestamp@, x),
                ),
                additions@.len() + already_present == k,
            decreases ids@.len() - k,
        {
            let id = &ids[k];
            assert(iv[k as int] == id@);
            assert(iv.take(k + 1).drop_last() =~= iv.take(k as int));
            let ghost prev = merge_additions(existing, iv.take(k as int));
            assert(ids_of(timed_view(additions@)) =~= prev);
            let held = contains_id(&self.matched, id.as_str()) || contains_id(&additions, id.as_str());
            if held {
                already_present = already_present + 1;
            } else {
                additions.push((timestamp.clone(), id.clone()));
                assert(timed_view(additions@) =~= prev.push(id@).map_values(|x: Seq<char>| (timestamp@, x)));
            }
            k = k + 1;
        }
        assert(iv.take(ids@.len() as int) =~= iv);
        let added = additions.len();
        let ghost old_matched = self.matched_view();
        let mut rest = additions;
        let mut front: Vec<(String, String)> = Vec::new();
        front.append(&mut rest);
        front.append(&mut self.matched);
        self.matched = front;
        assert(self.matched_view() =~= merge_additions(existing, iv).map_values(|x: Seq<char>| (timestamp@, x))
            + old_matched);
        MatchedMergeStats { added, already_present }
    }
}

/// `found` holds, for each history entry, what the keyword may find in it.
pub open spec fn found_in_history(h: Seq<Timed>, keyword: Seq<char>, found: Seq<Option<Seq<char>>>) -> bool {
    found.len() == h.len() && forall|i: int|
        0 <= i < found.len() ==> keyword_result(h[i].1, keyword, #[trigger] found[i])
}

/// The views of optional strings.
pub open spec fn opt_views(v: Seq<Option<String>>) -> Seq<Option<Seq<char>>> {
    v.map_values(|o: Option<String>| opt_string_view(o))
}

/// The history after recording `t` at `time`: at the front, keeping the newest 50.
pub open spec fn recorded_history(h: Seq<Timed>, time: Seq<char>, t: Seq<char>) -> Seq<Timed> {
    let l = seq![(time, t)] + h;
    if l.len() > log_limit() {
        l.drop_last()
    } else {
        l
    }
}

/// The matched list and debug log after the keyword `keyword` found `r` in text copied at
/// `time`.
pub open spec fn keyword_outcome(
    matched: Seq<Timed>,
    log: Seq<Seq<char>>,
    keyword: Seq<char>,
    time: Seq<char>,
    r: Option<Seq<char>>,
) -> (Seq<Timed>, Seq<Seq<char>>) {
    if keyword.len() == 0 {
        (matched, log)
    } else {
        match r {
            Some(x) => if ids_of(matched).contains(x) {
                (matched, log)
            } else {
                (seq![(time, x)] + matched, logged(log, "Matched: "@ + x))
            },
            None => (matched, logged(log, "No match found"@)),
        }
    }
}

/// `new` is `old` after new clipboard text `t` arrived at `time` and the keyword found `r`
/// in it.
pub open spec fn clipboard_recorded(old: MonitorState, new: MonitorState, t: Seq<char>, time: Seq<char>, r: Option<Seq<char>>) -> bool {
    &&& new == (MonitorState {
        last_content: new.last_content,
        history: new.history,
        matched: new.matched,
        match_debug_log: new.match_debug_log,
        ..old
    })
    &&& new.last_content@ == t
    &&& new.history_view() == recorded_history(old.history_view(), time, t)
    &&& (new.matched_view(), new.log()) == keyword_outcome(
        old.matched_view(),
        logged(old.log(), "New content: "@ + preview(t)),
        old.keyword@,
        time,
        r,
    )
}

/// `new` is `old` after a rematch of the history in which the keyword found `found`.
pub open spec fn rematched(old: MonitorState, new: MonitorState, found: Seq<Option<Seq<char>>>) -> bool {
    let add = rematch_additions(
        ids_of(old.matched_view()),
        old.history_view(),
        found,
        old.history@.len() as int,
    );
    &&& new == (MonitorState { matched: new.matched, match_debug_log: new.match_debug_log, ..old })
    &&& new.matched_view() == add + old.matched_view()
    &&& new.log() == if add.len() > 0 {
        logged(old.log(), "Rematch: found "@ + decimal(add.len()) + " new results from history"@)
    } else {
        old.log()
    }
}

impl MonitorState {
    /// Adds to the matched list what the keyword found in the history (`found[i]` for
    /// history entry `i`); does nothing without a keyword.
    pub fn rematch_with(&mut self, found: &Vec<Option<String>>)
        requires
            found@.len() == old(self).history@.len(),
        ensures
            old(self).keyword@.len() == 0 ==> *final(self) == *old(self),
            old(self).keyword@.len() > 0 ==> rematched(
                *old(self),
                *final(self),
                opt_views(found@),
            ),
    {
        if self.keyword.as_str().is_empty() {
            return;
        }
        let ghost fv = opt_views(found@);
        let ghost existing = ids_of(self.matched_view());
        let ghost hv = self.history_view();
        let mut additions: Vec<(String, String)> = Vec::new();
        let mut k: usize = 0;
        while k < self.history.len()
            invariant
                k <= self.history@.len(),
                found@.len() == self.history@.len(),
                fv == opt_views(found@),
                existing == ids_of(self.matched_view()),
                hv == self.history_view(),
                timed_view(additions@) == rematch_additions(existing, hv, fv, k as int),
            decreases self.history@.len() - k,
        {
            let ghost prev = timed_view(additions@);
            match &found[k] {
                Some(x) => {
                    assert(fv[k as int] == Some(x@));
                    let held = contains_id(&self.matched, x.as_str()) || contains_id(&additions, x.as_str());
                    if !held {
                        additions.push((self.history[k].0.clone(), x.clone()));
                        assert(timed_view(additions@) =~= prev.push((hv[k as int].0, x@)));
                    }
                },
                None => {
                    assert(fv[k as int] is None);
                },
            }
            k = k + 1;
        }
        let count = additions.len();
        if count > 0 {
            let ghost old_matched = self.matched_view();
            let mut front: Vec<(String, String)> = Vec::new();
            front.append(&mut additions);
            front.append(&mut self.matched);
            self.matched = front;
            assert(self.matched_view() =~= rematch_additions(existing, hv, fv, hv.len() as int) + old_matched);
            let mut m: Vec<char> = Vec::new();
            extend_str(&mut m, "Rematch: found ");
            let digits = decimal_chars(count as u64);
            extend_chars(&mut m, digits.as_slice());
            extend_str(&mut m, " new results from history");
            self.add_debug_log(string_from(m.as_slice()));
        } else {
            assert(self.matched_view() =~= rematch_additions(existing, hv, fv, hv.len() as int) + self.matched_view());
        }
    }

    /// Adds to the matched list the numbers that the keyword finds in the history.
    pub fn rematch_history(&mut self)
        ensures
            old(self).keyword@.len() == 0 ==> *final(self) == *old(self),
            old(self).keyword@.len() > 0 ==> exists|found: Seq<Option<Seq<char>>>|
                #[trigger] found_in_history(old(self).history_view(), old(self).keyword@, found)
                    && rematched(*old(self), *final(self), found),
    {
        if self.keyword.as_str().is_empty() {
            return;
        }
        let mut found: Vec<Option<String>> = Vec::new();
        let mut k: usize = 0;
        while k < self.history.len()
            invariant
                k <= self.history@.len(),
                found@.len() == k,
                forall|i: int|
                    0 <= i < k ==> keyword_result(
                        self.history_view()[i].1,
                        self.keyword@,
                        #[trigger] opt_views(found@)[i],
                    ),
            decreases self.history@.len() - k,
        {
            let r = extract_by_keyword(self.history[k].1.as_str(), self.keyword.as_str());
            let ghost before = opt_views(found@);
            let ghost rv = opt_string_view(r);
            found.push(r);
            assert(opt_views(found@) =~= before.push(rv));
            k = k + 1;
        }
        let ghost fv = opt_views(found@);
        self.rematch_with(&found);
        assert(found_in_history(old(self).history_view(), old(self).keyword@, fv));
    }

    /// Sets the keyword, logs it, and rematches the history with it.
    pub fn set_keyword(&mut self, keyword: String)
        ensures
            final(self).keyword@ == keyword@,
            *final(self) == (MonitorState {
                keyword: final(self).keyword,
                match_debug_log: final(self).match_debug_log,
                matched: final(self).matched,
                ..*old(self)
            }),
            keyword@.len() == 0 ==> final(self).matched == old(self).matched && final(self).log()
                == logged(old(self).log(), "Keyword set: ["@ + keyword@ + "]"@),
            keyword@.len() > 0 ==> exists|found: Seq<Option<Seq<char>>>|
                #[trigger] found_in_history(old(self).history_view(), keyword@, found) && {
                    let add = rematch_additions(
                        ids_of(old(self).matched_view()),
                        old(self).history_view(),
                        found,
                        old(self).history@.len() as int,
                    );
                    let log1 = logged(old(self).log(), "Keyword set: ["@ + keyword@ + "]"@);
                    &&& final(self).matched_view() == add + old(self).matched_view()
                    &&& final(self).log() == if add.len() > 0 {
                        logged(log1, "Rematch: found "@ + decimal(add.len()) + " new results from history"@)
                    } else {
                        log1
                    }
                },
    {
        let mut m: Vec<char> = Vec::new();
        extend_str(&mut m, "Keyword set: [");
        extend_str(&mut m, keyword.as_str());
        extend_str(&mut m, "]");
        self.add_debug_log(string_from(m.as_slice()));
        self.keyword = keyword;
        let ghost mid = *self;
        self.rematch_history();
        proof {
            if mid.keyword@.len() > 0 {
                let found = choose|found: Seq<Option<Seq<char>>>|
                    #[trigger] found_in_history(mid.history_view(), mid.keyword@, found) && rematched(mid, *self, found);
                assert(found_in_history(old(self).history_view(), mid.keyword@, found));
            }
        }
    }

    /// Records new clipboard text copied at `timestamp` (see `clipboard_recorded`), and says
    /// whether anything new was recorded. The first text after start-up is only remembered.
    pub fn process_clipboard_change_at(&mut self, content: String, timestamp: String) -> (changed: bool)
        ensures
            ({
                let t = trim(content@);
                if !old(self).monitoring || t.len() == 0 {
                    !changed && *final(self) == *old(self)
                } else if !old(self).initialized {
                    &&& !changed
                    &&& *final(self) == (MonitorState {
                        last_content: final(self).last_content,
                        initialized: true,
                        match_debug_log: final(self).match_debug_log,
                        ..*old(self)
                    })
                    &&& final(self).last_content@ == t
                    &&& final(self).log() == logged(old(self).log(), "Listener initialized"@)
                } else if t == old(self).last_content@ {
                    !changed && *final(self) == *old(self)
                } else {
                    changed && exists|r: Option<Seq<char>>|
                        (old(self).keyword@.len() > 0 ==> keyword_result(t, old(self).keyword@, r))
                            && #[trigger] clipboard_recorded(*old(self), *final(self), t, timestamp@, r)
                }
            }),
    {
        if !self.monitoring {
            return false;
        }
        let trimmed = trim_str(content.as_str());
        if trimmed.as_str().is_empty() {
            return false;
        }
        if !self.initialized {
            self.last_content = trimmed;
            self.initialized = true;
            self.add_debug_log("Listener initialized".to_owned());
            return false;
        }
        if str_eq(trimmed.as_str(), self.last_content.as_str()) {
            return false;
        }
        self.record_clipboard_text(trimmed, timestamp);
        true
    }

    #[verifier::rlimit(100)]
    fn note_text(&mut self, trimmed: &String, timestamp: &String)
        ensures
            *final(self) == (MonitorState {
                last_content: final(self).last_content,
                history: final(self).history,
                match_debug_log: final(self).match_debug_log,
                ..*old(self)
            }),
            final(self).last_content@ == trimmed@,
            final(self).history_view() == recorded_history(old(self).history_view(), timestamp@, trimmed@),
            final(self).log() == logged(old(self).log(), "New content: "@ + preview(trimmed@)),
    {
        self.last_content = trimmed.clone();
        let tc = chars_of(trimmed.as_str());
        let mut m: Vec<char> = Vec::new();
        extend_str(&mut m, "New content: ");
        let n = if tc.len() > 50 {
            50
        } else {
            tc.len()
        };
        let head = crate::sexpr::slice_range(tc.as_slice(), 0, n);
        extend_chars(&mut m, head.as_slice());
        assert(head@ =~= preview(trimmed@));
        self.add_debug_log(string_from(m.as_slice()));
        let ghost hist_before = self.history_view();
        self.history.insert(0, (timestamp.clone(), trimmed.clone()));
        assert(self.history_view() =~= seq![(timestamp@, trimmed@)] + hist_before);
        if self.history.len() > 50 {
            self.history.pop();
            assert(self.history_view() =~= (seq![(timestamp@, trimmed@)] + hist_before).drop_last());
        }
    }

    #[verifier::rlimit(100)]
    fn match_text(&mut self, trimmed: &String, timestamp: String)
        ensures
            *final(self) == (MonitorState {
                matched: final(self).matched,
                match_debug_log: final(self).match_debug_log,
                ..*old(self)
            }),
            exists|r: Option<Seq<char>>|
                (old(self).keyword@.len() > 0 ==> keyword_result(trimmed@, old(self).keyword@, r))
                    && (final(self).matched_view(), final(self).log()) == #[trigger] keyword_outcome(
                    old(self).matched_view(),
                    old(self).log(),
                    old(self).keyword@,
                    timestamp@,
                    r,
                ),
    {
        if self.keyword.as_str().is_empty() {
            assert((self.matched_view(), self.log()) == keyword_outcome(
                old(self).matched_view(),
                old(self).log(),
                old(self).keyword@,
                timestamp@,
                None,
            ));
            return;
        }
        let r = extract_by_keyword(trimmed.as_str(), self.keyword.as_str());
        let ghost rv = opt_string_view(r);
        match r {
            Some(x) => {
                if !contains_id(&self.matched, x.as_str()) {
                    let ghost before = self.matched_view();
                    let mut msg: Vec<char> = Vec::new();
                    extend_str(&mut msg, "Matched: ");
                    extend_str(&mut msg, x.as_str());
                    self.matched.insert(0, (timestamp, x));
                    assert(self.matched_view() =~= seq![(timestamp@, rv->0)] + before);
                    self.add_debug_log(string_from(msg.as_slice()));
                }
            },
            None => {
                self.add_debug_log("No match found".to_owned());
            },
        }
        assert((self.matched_view(), self.log()) == keyword_outcome(
            old(self).matched_view(),
            old(self).log(),
            old(self).keyword@,
            timestamp@,
            rv,
        ));
    }

    fn record_clipboard_text(&mut self, trimmed: String, timestamp: String)
        ensures
            exists|r: Option<Seq<char>>|
                (old(self).keyword@.len() > 0 ==> keyword_result(trimmed@, old(self).keyword@, r))
                    && #[trigger] clipboard_recorded(*old(self), *final(self), trimmed@, timestamp@, r),
    {
        self.note_text(&trimmed, &timestamp);
        let ghost mid = *self;
        self.match_text(&trimmed, timestamp);
        proof {
            let r = choose|r: Option<Seq<char>>|
                (mid.keyword@.len() > 0 ==> keyword_result(trimmed@, mid.keyword@, r))
                    && (self.matched_view(), self.log()) == #[trigger] keyword_outcome(
                    mid.matched_view(),
                    mid.log(),
                    mid.keyword@,
                    timestamp@,
                    r,
                );
            assert(clipboard_recorded(*old(self), *self, trimmed@, timestamp@, r));
        }
    }

    /// Records new clipboard text, stamped with the local time of day.
    pub fn process_clipboard_change(&mut self, content: String) -> (changed: bool)
        ensures
            ({
                let t = trim(content@);
                if !old(self).monitoring || t.len() == 0 {
                    !changed && *final(self) == *old(self)
                } else if !old(self).initialized {
                    !changed && final(self).initialized && final(self).last_content@ == t
                } else if t == old(self).last_content@ {
                    !changed && *final(self) == *old(self)
                } else {
                    changed && exists|r: Option<Seq<char>>, time: Seq<char>|
                        (old(self).keyword@.len() > 0 ==> keyword_result(t, old(self).keyword@, r))
                            && #[trigger] clipboard_recorded(*old(self), *final(self), t, time, r)
                            && time_of_day(time)
                }
            }),
    {
        let ts = local_time_hms();
        self.process_clipboard_change_at(content, ts)
    }
}

/// Whether the list `v` holds `s`.
pub(crate) fn contains_string(v: &Vec<String>, s: &str) -> (r: bool)
    ensures
        r == v@.map_values(|x: String| x@).contains(s@),
{
    let ghost vv = v@.map_values(|x: String| x@);
    let mut k: usize = 0;
    while k < v.len()
        invariant
            k <= v@.len(),
            vv == v@.map_values(|x: String| x@),
            forall|j: int| 0 <= j < k ==> vv[j] != s@,
        decreases v@.len() - k,
    {
        assert(vv[k as int] == v@[k as int]@);
        if str_eq(v[k].as_str(), s) {
            return true;
        }
        k = k + 1;
    }
    false
}

/// Whether the timed list `v` holds an entry with id `id`.
fn contains_id(v: &Vec<(String, String)>, id: &str) -> (r: bool)
    ensures
        r == ids_of(timed_view(v@)).contains(id@),
{
    let ghost vv = ids_of(timed_view(v@));
    let mut k: usize = 0;
    while k < v.len()
        invariant
            k <= v@.len(),
            vv == ids_of(timed_view(v@)),
            forall|j: int| 0 <= j < k ==> vv[j] != id@,
        decreases v@.len() - k,
    {
        assert(vv[k as int] == v@[k as int].1@);
        if str_eq(v[k].1.as_str(), id) {
            return true;
        }
        k = k + 1;
    }
    false
}

/// Law: the unique matched ids hold each matched id exactly once.
pub proof fn law_unique_ids(ids: Seq<Seq<char>>)
    ensures
        distinct_in_order(ids).no_duplicates(),
        forall|x: Seq<char>| #![trigger distinct_in_order(ids).contains(x)]
            distinct_in_order(ids).contains(x) <==> ids.contains(x),
    decreases ids.len(),
{
    if ids.len() > 0 {
        let init = ids.drop_last();
        law_unique_ids(init);
        let p = distinct_in_order(init);
        assert forall|x: Seq<char>| #![trigger distinct_in_order(ids).contains(x)]
            distinct_in_order(ids).contains(x) <==> ids.contains(x) by {
            if ids.contains(x) && !init.contains(x) {
                let i = choose|i: int| 0 <= i < ids.len() && ids[i] == x;
                if i < ids.len() - 1 {
                    assert(init[i] == x);
                }
            }
            if init.contains(x) {
                let i = choose|i: int| 0 <= i < init.len() && init[i] == x;
                assert(ids[i] == x);
            }
            if !p.contains(ids.last()) {
                if p.push(ids.last()).contains(x) {
                    let i = choose|i: int| 0 <= i < p.len() + 1 && p.push(ids.last())[i] == x;
                    if i < p.len() {
                        assert(p[i] == x);
                    }
                }
                if p.contains(x) {
                    let i = choose|i: int| 0 <= i < p.len() && p[i] == x;
                    assert(p.push(ids.last())[i] == x);
                }
                if x == ids.last() {
                    assert(p.push(ids.last())[p.len() as int] == x);
                }
            }
        }
    }
}

} // verus!
