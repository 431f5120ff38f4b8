//! Reading lists of component numbers, and moving settings between the monitor and the
//! settings file.
use vstd::prelude::*;
use crate::text::{
    chars_of, is_ascii_alnum, lines, lines_of, string_from, trim, trim_chars, trim_str, upper_chars,
    upper_seq, is_digit, str_eq,
};
use crate::pattern::{Pattern, RegexMatch, regex_matches, match_view};
use crate::monitor::{MonitorState, distinct_in_order};
use crate::config::{AppConfig, ExportConfig, MonitorConfig, normalized_export};
use crate::app_paths::AppPaths;
use crate::runner::copy_strings;

verus! {

/// What was read from a list of component numbers.
#[derive(Debug, Clone, PartialEq, Eq)]
pub struct LcscPartCollectionSummary {
    pub normalized_parts: Vec<String>,
    pub matched_part_count: usize,
    pub duplicate_part_count: usize,
    pub invalid_entry_count: usize,
}

/// The summary of a list in which the numbers `found` were recognised, in order, and
/// `invalid` entries held none.
pub open spec fn summary_of(s: LcscPartCollectionSummary, found: Seq<Seq<char>>, invalid: nat) -> bool {
    let parts = distinct_in_order(found);
    &&& s.normalized_parts@.map_values(|x: String| x@) == parts
    &&& s.matched_part_count == found.len()
    &&& s.duplicate_part_count == found.len() - parts.len()
    &&& s.invalid_entry_count == invalid
}

/// `C` or `c` followed by nothing but ASCII digits.
pub open spec fn strict_lcsc_part(v: Seq<char>) -> bool {
    v.len() > 0 && (v[0] == 'c' || v[0] == 'C') && forall|i: int| 1 <= i < v.len() ==> #[trigger] is_digit(v[i])
}

fn is_strict_lcsc_part(v: &[char]) -> (r: bool)
    ensures
        r == strict_lcsc_part(v@),
{
    if v.len() == 0 || !(v[0] == 'c' || v[0] == 'C') {
        return false;
    }
    let mut i: usize = 1;
    while i < v.len()
        invariant
            1 <= i <= v.len(),
            forall|j: int| 1 <= j < i ==> #[trigger] is_digit(v@[j]),
        decreases v.len() - i,
    {
        if !('0' <= v[i] && v[i] <= '9') {
            assert(!is_digit(v@[i as int]));
            return false;
        }
        i = i + 1;
    }
    true
}

/// The numbers recognised among the first `n` entries given one by one, upper-cased.
pub open spec fn direct_found(parts: Seq<Seq<char>>, n: int) -> Seq<Seq<char>>
    decreases n,
{
    if n <= 0 {
        Seq::empty()
    } else {
        let prev = direct_found(parts, n - 1);
        let t = trim(parts[n - 1]);
        if t.len() > 0 && strict_lcsc_part(t) {
            prev.push(upper_seq(t))
        } else {
            prev
        }
    }
}

/// How many of the first `n` entries are neither blank nor a number.
pub open spec fn direct_invalid(parts: Seq<Seq<char>>, n: int) -> nat
    decreases n,
{
    if n <= 0 {
        0
    } else {
        let t = trim(parts[n - 1]);
        direct_invalid(parts, n - 1) + if t.len() > 0 && !strict_lcsc_part(t) {
            1nat
        } else {
            0nat
        }
    }
}

fn distinct_push(out: &mut Vec<String>, x: String)
    ensures
        final(out)@.map_values(|s: String| s@) == if old(out)@.map_values(|s: String| s@).contains(x@) {
            old(out)@.map_values(|s: String| s@)
        } else {
            old(out)@.map_values(|s: String| s@).push(x@)
        },
{
    let ghost before = out@.map_values(|s: String| s@);
    let mut k: usize = 0;
    while k < out.len()
        invariant
            k <= out@.len(),
            before == out@.map_values(|s: String| s@),
            forall|j: int| 0 <= j < k ==> before[j] != x@,
        decreases out@.len() - k,
    {
        assert(before[k as int] == out@[k as int]@);
        if str_eq(out[k].as_str(), x.as_str()) {
            return;
        }
        k = k + 1;
    }
    out.push(x);
    assert(out@.map_values(|s: String| s@) =~= before.push(x@));
}

/// Reads component numbers given one per entry: blank entries are skipped, entries that
/// are not `C` and digits count as invalid, and the rest are upper-cased and listed once.
pub fn normalize_direct_lcsc_parts(parts: Vec<String>) -> (r: LcscPartCollectionSummary)
    ensures
        summary_of(
            r,
            direct_found(parts@.map_values(|s: String| s@), parts@.len() as int),
            direct_invalid(parts@.map_values(|s: String| s@), parts@.len() as int),
        ),
{
    let ghost pv = parts@.map_values(|s: String| s@);
    let mut normalized: Vec<String> = Vec::new();
    let mut matched: usize = 0;
    let mut invalid: usize = 0;
    let mut k: usize = 0;
    while k < parts.len()
        invariant
            k <= parts@.len(),
            pv == parts@.map_values(|s: String| s@),
            normalized@.map_values(|s: String| s@) == distinct_in_order(direct_found(pv, k as int)),
            matched == direct_found(pv, k as int).len(),
            invalid == direct_invalid(pv, k as int),
            matched + invalid <= k,
        decreases parts@.len() - k,
    {
        assert(pv[k as int] == parts@[k as int]@);
        let t = trim_chars(chars_of(parts[k].as_str()).as_slice());
        if t.len() > 0 {
            if !is_strict_lcsc_part(t.as_slice()) {
                invalid = invalid + 1;
            } else {
                matched = matched + 1;
                let u = upper_chars(t.as_slice());
                distinct_push(&mut normalized, string_from(u.as_slice()));
                assert(direct_found(pv, k + 1).drop_last() == direct_found(pv, k as int));
            }
        }
        k = k + 1;
    }
    let n = normalized.len();
    proof {
        crate::controller::lemma_distinct_len(direct_found(pv, k as int));
    }
    LcscPartCollectionSummary {
        normalized_parts: normalized,
        matched_part_count: matched,
        duplicate_part_count: matched - n,
        invalid_entry_count: invalid,
    }
}

/// Keeping each item once keeps no more items than there were.
pub proof fn lemma_distinct_len(ids: Seq<Seq<char>>)
    ensures
        distinct_in_order(ids).len() <= ids.len(),
    decreases ids.len(),
{
    if ids.len() > 0 {
        lemma_distinct_len(ids.drop_last());
    }
}

/// The pattern that finds component numbers in imported text.
pub open spec fn import_pattern() -> Seq<char> {
    "(?i)c\\d+"@
}

/// The matches of `import_pattern` in a trimmed line that stand alone (no ASCII letter or
/// digit right before or after them), upper-cased.
pub open spec fn standalone(ms: Seq<(Seq<char>, Option<char>, Option<char>)>) -> Seq<Seq<char>>
    decreases ms.len(),
{
    if ms.len() == 0 {
        Seq::empty()
    } else {
        let prev = standalone(ms.drop_last());
        let m = ms.last();
        let blocked = (m.1 matches Some(c) && is_ascii_alnum(c)) || (m.2 matches Some(c) && is_ascii_alnum(c));
        if blocked {
            prev
        } else {
            prev.push(upper_seq(m.0))
        }
    }
}

/// The numbers found in the first `n` lines of imported text, in order.
pub open spec fn text_found(ls: Seq<Seq<char>>, n: int) -> Seq<Seq<char>>
    decreases n,
{
    if n <= 0 {
        Seq::empty()
    } else {
        let t = trim(ls[n - 1]);
        text_found(ls, n - 1) + if t.len() > 0 {
            standalone(regex_matches(import_pattern(), t))
        } else {
            Seq::empty()
        }
    }
}

/// How many of the first `n` lines are neither blank nor hold a number.
pub open spec fn text_invalid(ls: Seq<Seq<char>>, n: int) -> nat
    decreases n,
{
    if n <= 0 {
        0
    } else {
        let t = trim(ls[n - 1]);
        text_invalid(ls, n - 1) + if t.len() > 0 && standalone(regex_matches(import_pattern(), t)).len()
            == 0 {
            1nat
        } else {
            0nat
        }
    }
}

fn standalone_matches(ms: &Vec<RegexMatch>) -> (r: Vec<String>)
    ensures
        r@.map_values(|s: String| s@) == standalone(ms@.map_values(|m: RegexMatch| match_view(m))),
{
    let ghost mv = ms@.map_values(|m: RegexMatch| match_view(m));
    let mut out: Vec<String> = Vec::new();
    let mut k: usize = 0;
    while k < ms.len()
        invariant
            k <= ms@.len(),
            mv == ms@.map_values(|m: RegexMatch| match_view(m)),
            out@.map_values(|s: String| s@) == standalone(mv.take(k as int)),
        decreases ms@.len() - k,
    {
        let m = &ms[k];
        assert(mv[k as int] == match_view(*m));
        assert(mv.take(k + 1).drop_last() =~= mv.take(k as int));
        assert(mv.take(k + 1).last() == mv[k as int]);
        let blocked_before = match m.before {
            Some(c) => crate::text::is_ascii_alphanumeric(c),
            None => false,
        };
        let blocked_after = match m.after {
            Some(c) => crate::text::is_ascii_alphanumeric(c),
            None => false,
        };
        if !(blocked_before || blocked_after) {
            let ghost before = out@.map_values(|s: String| s@);
            let u = upper_chars(chars_of(m.text.as_str()).as_slice());
            out.push(string_from(u.as_slice()));
            assert(out@.map_values(|s: String| s@) =~= before.push(upper_seq(m.text@)));
        }
        k = k + 1;
    }
    assert(mv.take(ms@.len() as int) =~= mv);
    out
}

/// Reads component numbers from imported text, line by line: every standalone `C` number
/// in a line counts (upper-cased, listed once); a non-blank line with none is invalid.
/// `None` when the search pattern does not compile.
pub fn parse_imported_parts_text(content: &str) -> (r: Option<LcscPartCollectionSummary>)
    ensures
        r is Some <==> crate::pattern::regex_compiles(import_pattern()),
        r matches Some(s) ==> summary_of(
            s,
            text_found(lines(content@), lines(content@).len() as int),
            text_invalid(lines(content@), lines(content@).len() as int),
        ),
{
    let p = match Pattern::compile("(?i)c\\d+") {
        Some(p) => p,
        None => return None,
    };
    let cs = chars_of(content);
    let ls = lines_of(cs.as_slice());
    let ghost lv = lines(content@);
    let mut found: Vec<String> = Vec::new();
    let mut normalized: Vec<String> = Vec::new();
    let mut invalid: usize = 0;
    let mut k: usize = 0;
    while k < ls.len()
        invariant
            k <= ls@.len(),
            ls@.len() == lv.len(),
            forall|j: int| 0 <= j < ls@.len() ==> (#[trigger] ls@[j])@ == lv[j],
            p.source() == import_pattern(),
            found@.map_values(|s: String| s@) == text_found(lv, k as int),
            normalized@.map_values(|s: String| s@) == distinct_in_order(text_found(lv, k as int)),
            invalid == text_invalid(lv, k as int),
            invalid <= k,
        decreases ls@.len() - k,
    {
        let t = trim_chars(ls[k].as_slice());
        assert(t@ == trim(lv[k as int]));
        let ghost before = text_found(lv, k as int);
        if t.len() > 0 {
            let ts = string_from(t.as_slice());
            let ms = p.find_matches(ts.as_str());
            let kept = standalone_matches(&ms);
            if kept.len() == 0 {
                invalid = invalid + 1;
            }
            let mut j: usize = 0;
            while j < kept.len()
                invariant
                    j <= kept@.len(),
                    found@.map_values(|s: String| s@) == before + kept@.map_values(|s: String| s@).take(j as int),
                    normalized@.map_values(|s: String| s@) == distinct_in_order(before + kept@.map_values(|s: String| s@).take(j as int)),
                decreases kept@.len() - j,
            {
                let ghost prev = before + kept@.map_values(|s: String| s@).take(j as int);
                let ghost fprev = found@.map_values(|s: String| s@);
                found.push(kept[j].clone());
                distinct_push(&mut normalized, kept[j].clone());
                assert(before + kept@.map_values(|s: String| s@).take(j + 1) =~= prev.push(kept@[j as int]@));
                assert(prev.push(kept@[j as int]@).drop_last() =~= prev);
                assert(found@.map_values(|s: String| s@) =~= fprev.push(kept@[j as int]@));
                j = j + 1;
            }
            assert(kept@.map_values(|s: String| s@).take(kept@.len() as int) =~= kept@.map_values(|s: String| s@));
        } else {
            assert(text_found(lv, k + 1) =~= before);
        }
        k = k + 1;
    }
    let n = normalized.len();
    let matched = found.len();
    proof {
        lemma_distinct_len(text_found(lv, k as int));
    }
    Some(LcscPartCollectionSummary {
        normalized_parts: normalized,
        matched_part_count: matched,
        duplicate_part_count: matched - n,
        invalid_entry_count: invalid,
    })
}

/// The settings that the monitor's state stands for.
pub open spec fn snapshot_of(state: MonitorState, c: AppConfig) -> bool {
    &&& c.export.output_path@ == state.export_output_path@
    &&& c.export.show_terminal == state.export_show_terminal
    &&& c.export.parallel == state.export_parallel
    &&& c.export.path_mode == state.export_path_mode
    &&& c.export.export_symbol == state.export_symbol
    &&& c.export.export_footprint == state.export_footprint
    &&& c.export.export_model_3d == state.export_model_3d
    &&& c.export.overwrite_symbol == state.export_overwrite_symbol
    &&& c.export.overwrite_footprint == state.export_overwrite_footprint
    &&& c.export.overwrite_model_3d == state.export_overwrite_model_3d
    &&& crate::pattern::opt_string_view(c.export.symbol_fill_color) == crate::pattern::opt_string_view(
        state.export_symbol_fill_color,
    )
    &&& c.export.legacy_overwrite is None
    &&& c.monitor.always_on_top == state.always_on_top
    &&& c.monitor.history_save_path@ == state.history_save_path@
    &&& c.monitor.matched_save_path@ == state.matched_save_path@
    &&& c.monitor.imported_parts_save_path@ == state.imported_parts_save_path@
    &&& c.monitor.kicad_library_paths@.map_values(|s: String| s@) == state.kicad_library_paths@.map_values(
        |s: String| s@,
    )
    &&& c.monitor.default_model_format == state.default_model_format
    &&& c.monitor.window_width == state.window_width
    &&& c.monitor.window_height == state.window_height
    &&& c.monitor.window_x == state.window_x
    &&& c.monitor.window_y == state.window_y
}

fn copy_opt(o: &Option<String>) -> (r: Option<String>)
    ensures
        crate::pattern::opt_string_view(r) == crate::pattern::opt_string_view(*o),
{
    match o {
        Some(s) => Some(s.clone()),
        None => None,
    }
}

/// The settings to save for the monitor's current state.
pub fn snapshot_config(state: &MonitorState) -> (r: AppConfig)
    ensures
        snapshot_of(*state, r),
{
    AppConfig {
        export: ExportConfig {
            output_path: state.export_output_path.clone(),
            show_terminal: state.export_show_terminal,
            parallel: state.export_parallel,
            path_mode: state.export_path_mode,
            export_symbol: state.export_symbol,
            export_footprint: state.export_footprint,
            export_model_3d: state.export_model_3d,
            overwrite_symbol: state.export_overwrite_symbol,
            overwrite_footprint: state.export_overwrite_footprint,
            overwrite_model_3d: state.export_overwrite_model_3d,
            symbol_fill_color: copy_opt(&state.export_symbol_fill_color),
            legacy_overwrite: None,
        },
        monitor: MonitorConfig {
            always_on_top: state.always_on_top,
            history_save_path: state.history_save_path.clone(),
            matched_save_path: state.matched_save_path.clone(),
            imported_parts_save_path: state.imported_parts_save_path.clone(),
            kicad_library_paths: copy_strings(&state.kicad_library_paths),
            default_model_format: state.default_model_format,
            window_width: state.window_width,
            window_height: state.window_height,
            window_x: state.window_x,
            window_y: state.window_y,
        },
    }
}

/// Applies saved settings to the monitor, through the same setters the window uses (so a
/// blank export folder becomes the default, and overwriting needs the asset exported).
pub fn apply_config(state: &mut MonitorState, config: &AppConfig, paths: &AppPaths, home: Option<&str>, cwd: &str)
    ensures
        final(state).export_show_terminal == config.export.show_terminal,
        final(state).export_parallel == if config.export.parallel >= 1 {
            config.export.parallel
        } else {
            1
        },
        final(state).export_path_mode == config.export.path_mode,
        final(state).export_symbol == config.export.export_symbol,
        final(state).export_footprint == config.export.export_footprint,
        final(state).export_model_3d == config.export.export_model_3d,
        final(state).export_overwrite_symbol == (config.export.export_symbol && config.export.overwrite_symbol),
        final(state).export_overwrite_footprint == (config.export.export_footprint
            && config.export.overwrite_footprint),
        final(state).export_overwrite_model_3d == (config.export.export_model_3d
            && config.export.overwrite_model_3d),
        final(state).always_on_top == config.monitor.always_on_top,
        final(state).kicad_library_paths@.map_values(|s: String| s@) == config.monitor.kicad_library_paths@.map_values(
            |s: String| s@,
        ),
        final(state).default_model_format == config.monitor.default_model_format,
        final(state).window_width == config.monitor.window_width,
        final(state).window_height == config.monitor.window_height,
        final(state).window_x == config.monitor.window_x,
        final(state).window_y == config.monitor.window_y,
        final(state).history_save_path@ == paths.resolved_save_path(
            config.monitor.history_save_path@,
            "history.txt"@,
            crate::paths::join(paths.data_spec(), "history.txt"@),
        ),
        final(state).matched_save_path@ == paths.resolved_save_path(
            config.monitor.matched_save_path@,
            "matched.txt"@,
            crate::paths::join(paths.data_spec(), "matched.txt"@),
        ),
        final(state).imported_parts_save_path@ == paths.resolved_save_path(
            config.monitor.imported_parts_save_path@,
            "imported_lcsc_parts.txt"@,
            crate::paths::join(paths.data_spec(), "imported_lcsc_parts.txt"@),
        ),
        final(state).export_output_path@ == if trim(config.export.output_path@).len() == 0 {
            old(state).default_output_spec()
        } else {
            crate::monitor::resolved_user_path(
                trim(config.export.output_path@),
                match home {
                    Some(h) => Some(h@),
                    None => None,
                },
                cwd@,
            )
        },
        crate::pattern::opt_string_view(final(state).export_symbol_fill_color) == match config.export.symbol_fill_color {
            Some(c) => if trim(c@).len() == 0 {
                None
            } else {
                Some(trim(c@))
            },
            None => None,
        },
        final(state).history == old(state).history,
        final(state).matched == old(state).matched,
        final(state).keyword == old(state).keyword,
        final(state).match_debug_log == old(state).match_debug_log,
{
    state.set_export_output_path(config.export.output_path.as_str(), home, cwd);
    state.export_show_terminal = config.export.show_terminal;
    state.set_export_parallel(config.export.parallel);
    state.set_export_path_mode(config.export.path_mode);
    state.set_export_symbol(config.export.export_symbol);
    state.set_export_footprint(config.export.export_footprint);
    state.set_export_model_3d(config.export.export_model_3d);
    state.set_export_overwrite_symbol(config.export.overwrite_symbol);
    state.set_export_overwrite_footprint(config.export.overwrite_footprint);
    state.set_export_overwrite_model_3d(config.export.overwrite_model_3d);
    state.set_export_symbol_fill_color(copy_opt(&config.export.symbol_fill_color));
    state.always_on_top = config.monitor.always_on_top;
    state.set_history_save_path(config.monitor.history_save_path.clone(), paths);
    state.set_matched_save_path(config.monitor.matched_save_path.clone(), paths);
    state.set_imported_parts_save_path(config.monitor.imported_parts_save_path.clone(), paths);
    state.kicad_library_paths = copy_strings(&config.monitor.kicad_library_paths);
    state.default_model_format = config.monitor.default_model_format;
    state.window_width = config.monitor.window_width;
    state.window_height = config.monitor.window_height;
    state.window_x = config.monitor.window_x;
    state.window_y = config.monitor.window_y;
}

} // verus!
