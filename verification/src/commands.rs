//! The desktop's commands on the monitor's state: what the window is shown, and how a
//! named asset kind or model format from the window is applied.
use vstd::prelude::*;
use crate::app_paths::AppPaths;
use crate::config::{ExportPathMode, ModelFormat, model_format_of};
use crate::monitor::MonitorState;
use crate::paths::join;
use crate::text::{chars_of, extend_str, lower_chars, lower_seq, str_eq, string_from, trim, trim_chars};

verus! {

/// What the window shows of the monitor's state.
#[derive(Debug, Clone)]
pub struct AppState {
    pub history: Vec<(String, String)>,
    pub matched: Vec<(String, String)>,
    pub keyword: String,
    pub export_output_path: String,
    pub export_last_result: Option<String>,
    pub export_show_terminal: bool,
    pub export_parallel: usize,
    pub export_path_mode: ExportPathMode,
    pub export_symbol: bool,
    pub export_footprint: bool,
    pub export_model_3d: bool,
    pub export_overwrite_symbol: bool,
    pub export_overwrite_footprint: bool,
    pub export_overwrite_model_3d: bool,
    pub export_symbol_fill_color: Option<String>,
    pub export_running: bool,
    pub monitoring: bool,
    pub always_on_top: bool,
    pub history_count: usize,
    pub matched_count: usize,
    pub history_save_path: String,
    pub matched_save_path: String,
    pub imported_parts_save_path: String,
    pub default_model_format: ModelFormat,
}

pub open spec fn pairs_view(v: Seq<(String, String)>) -> Seq<(Seq<char>, Seq<char>)> {
    v.map_values(|p: (String, String)| (p.0@, p.1@))
}

pub open spec fn opt_view(o: Option<String>) -> Option<Seq<char>> {
    match o {
        Some(s) => Some(s@),
        None => None,
    }
}

/// `a` shows the state `m`: its lists, their lengths and its settings.
pub open spec fn shows(a: AppState, m: MonitorState) -> bool {
    &&& pairs_view(a.history@) == pairs_view(m.history@)
    &&& pairs_view(a.matched@) == pairs_view(m.matched@)
    &&& a.history_count == m.history@.len() && a.matched_count == m.matched@.len()
    &&& a.keyword@ == m.keyword@ && a.export_output_path@ == m.export_output_path@
    &&& opt_view(a.export_last_result) == opt_view(m.export_last_result)
    &&& a.export_show_terminal == m.export_show_terminal && a.export_parallel == m.export_parallel
    &&& a.export_path_mode == m.export_path_mode
    &&& a.export_symbol == m.export_symbol && a.export_footprint == m.export_footprint
    &&& a.export_model_3d == m.export_model_3d
    &&& a.export_overwrite_symbol == m.export_overwrite_symbol
    &&& a.export_overwrite_footprint == m.export_overwrite_footprint
    &&& a.export_overwrite_model_3d == m.export_overwrite_model_3d
    &&& opt_view(a.export_symbol_fill_color) == opt_view(m.export_symbol_fill_color)
    &&& a.export_running == m.export_running && a.monitoring == m.monitoring
    &&& a.always_on_top == m.always_on_top
    &&& a.history_save_path@ == m.history_save_path@ && a.matched_save_path@ == m.matched_save_path@
    &&& a.imported_parts_save_path@ == m.imported_parts_save_path@
    &&& a.default_model_format == m.default_model_format
}

/// `a` is what the window shows when the state cannot be read: empty lists, the default
/// settings and the default files under the data folder, with monitoring on.
pub open spec fn shows_defaults(a: AppState, paths: AppPaths) -> bool {
    &&& a.history@.len() == 0 && a.matched@.len() == 0 && a.keyword@.len() == 0
    &&& a.export_output_path@ == join(paths.data_spec(), "export"@)
    &&& a.export_last_result is None && a.export_show_terminal && a.export_parallel == 4
    &&& a.export_path_mode == ExportPathMode::Auto
    &&& a.export_symbol && a.export_footprint && a.export_model_3d
    &&& !a.export_overwrite_symbol && !a.export_overwrite_footprint && !a.export_overwrite_model_3d
    &&& a.export_symbol_fill_color is None && !a.export_running && a.monitoring && !a.always_on_top
    &&& a.history_count == 0 && a.matched_count == 0
    &&& a.history_save_path@ == join(paths.data_spec(), "history.txt"@)
    &&& a.matched_save_path@ == join(paths.data_spec(), "matched.txt"@)
    &&& a.imported_parts_save_path@ == join(paths.data_spec(), "imported_lcsc_parts.txt"@)
    &&& a.default_model_format == ModelFormat::Wrl
}

fn copy_pairs(v: &Vec<(String, String)>) -> (r: Vec<(String, String)>)
    ensures
        pairs_view(r@) == pairs_view(v@),
{
    let mut out: Vec<(String, String)> = Vec::new();
    let mut k: usize = 0;
    while k < v.len()
        invariant
            k <= v@.len(),
            pairs_view(out@) == pairs_view(v@).take(k as int),
        decreases v@.len() - k,
    {
        let ghost before = pairs_view(out@);
        out.push((v[k].0.clone(), v[k].1.clone()));
        assert(pairs_view(out@) =~= before.push((v@[k as int].0@, v@[k as int].1@)));
        assert(pairs_view(v@).take(k + 1) =~= before.push((v@[k as int].0@, v@[k as int].1@)));
        k = k + 1;
    }
    assert(pairs_view(v@).take(v@.len() as int) =~= pairs_view(v@));
    out
}

fn copy_opt(o: &Option<String>) -> (r: Option<String>)
    ensures
        opt_view(r) == opt_view(*o),
{
    match o {
        Some(s) => Some(s.clone()),
        None => None,
    }
}

/// What the window is shown: the state when it could be read (`Some`), else the defaults.
pub fn build_app_state(state: Option<&MonitorState>, paths: &AppPaths) -> (r: AppState)
    ensures
        match state {
            Some(m) => shows(r, *m),
            None => shows_defaults(r, *paths),
        },
{
    match state {
        Some(m) => AppState {
            history_count: m.history.len(),
            matched_count: m.matched.len(),
            history: copy_pairs(&m.history),
            matched: copy_pairs(&m.matched),
            keyword: m.keyword.clone(),
            export_output_path: m.export_output_path.clone(),
            export_last_result: copy_opt(&m.export_last_result),
            export_show_terminal: m.export_show_terminal,
            export_parallel: m.export_parallel,
            export_path_mode: m.export_path_mode,
            export_symbol: m.export_symbol,
            export_footprint: m.export_footprint,
            export_model_3d: m.export_model_3d,
            export_overwrite_symbol: m.export_overwrite_symbol,
            export_overwrite_footprint: m.export_overwrite_footprint,
            export_overwrite_model_3d: m.export_overwrite_model_3d,
            export_symbol_fill_color: copy_opt(&m.export_symbol_fill_color),
            export_running: m.export_running,
            monitoring: m.monitoring,
            always_on_top: m.always_on_top,
            history_save_path: m.history_save_path.clone(),
            matched_save_path: m.matched_save_path.clone(),
            imported_parts_save_path: m.imported_parts_save_path.clone(),
            default_model_format: m.default_model_format,
        },
        None => {
            let defaults = crate::config::AppConfig::default();
            AppState {
                history: Vec::new(),
                matched: Vec::new(),
                keyword: String::new(),
                export_output_path: paths.default_export_output_path_string(),
                export_last_result: None,
                export_show_terminal: defaults.export.show_terminal,
                export_parallel: defaults.export.parallel,
                export_path_mode: defaults.export.path_mode,
                export_symbol: defaults.export.export_symbol,
                export_footprint: defaults.export.export_footprint,
                export_model_3d: defaults.export.export_model_3d,
                export_overwrite_symbol: defaults.export.overwrite_symbol,
                export_overwrite_footprint: defaults.export.overwrite_footprint,
                export_overwrite_model_3d: defaults.export.overwrite_model_3d,
                export_symbol_fill_color: None,
                export_running: false,
                monitoring: true,
                always_on_top: defaults.monitor.always_on_top,
                history_count: 0,
                matched_count: 0,
                history_save_path: paths.default_history_save_path_string(),
                matched_save_path: paths.default_matched_save_path_string(),
                imported_parts_save_path: paths.default_imported_parts_save_path_string(),
                default_model_format: defaults.monitor.default_model_format,
            }
        },
    }
}

/// An asset kind the window names.
#[derive(Debug, Clone, Copy, PartialEq, Eq, Structural)]
pub enum AssetKind {
    Symbol,
    Footprint,
    Model3d,
}

/// The asset kind a name stands for, trimmed and in any ASCII case: `symbol`,
/// `footprint`, or one of `3d`, `model_3d` and `model-3d`.
pub open spec fn asset_kind_of(target: Seq<char>) -> Option<AssetKind> {
    let t = lower_seq(trim(target));
    if t == "symbol"@ {
        Some(AssetKind::Symbol)
    } else if t == "footprint"@ {
        Some(AssetKind::Footprint)
    } else if t == "3d"@ || t == "model_3d"@ || t == "model-3d"@ {
        Some(AssetKind::Model3d)
    } else {
        None
    }
}

/// The asset kind a name stands for (see `asset_kind_of`); another name is refused.
pub fn parse_export_asset_kind(target: &str) -> (r: Result<AssetKind, String>)
    ensures
        match asset_kind_of(target@) {
            Some(k) => r == Ok::<AssetKind, String>(k),
            None => r is Err && r->Err_0@ == "Unknown export asset type: "@ + target@,
        },
{
    let t = lower_chars(trim_chars(chars_of(target).as_slice()).as_slice());
    let s = string_from(t.as_slice());
    if str_eq(s.as_str(), "symbol") {
        Ok(AssetKind::Symbol)
    } else if str_eq(s.as_str(), "footprint") {
        Ok(AssetKind::Footprint)
    } else if str_eq(s.as_str(), "3d") || str_eq(s.as_str(), "model_3d") || str_eq(s.as_str(), "model-3d") {
        Ok(AssetKind::Model3d)
    } else {
        let mut v: Vec<char> = Vec::new();
        extend_str(&mut v, "Unknown export asset type: ");
        extend_str(&mut v, target);
        Err(string_from(v.as_slice()))
    }
}

/// Switches the export of the named asset kind on or off.
pub fn set_export_enabled(state: &mut MonitorState, target: &str, enabled: bool) -> (r: Result<(), String>)
    ensures
        match asset_kind_of(target@) {
            Some(AssetKind::Symbol) => r is Ok && *final(state) == (MonitorState {
                export_symbol: enabled,
                export_overwrite_symbol: old(state).export_overwrite_symbol && enabled,
                ..*old(state)
            }),
            Some(AssetKind::Footprint) => r is Ok && *final(state) == (MonitorState {
                export_footprint: enabled,
                export_overwrite_footprint: old(state).export_overwrite_footprint && enabled,
                ..*old(state)
            }),
            Some(AssetKind::Model3d) => r is Ok && *final(state) == (MonitorState {
                export_model_3d: enabled,
                export_overwrite_model_3d: old(state).export_overwrite_model_3d && enabled,
                ..*old(state)
            }),
            None => r is Err && *final(state) == *old(state),
        },
{
    match parse_export_asset_kind(target) {
        Ok(AssetKind::Symbol) => state.set_export_symbol(enabled),
        Ok(AssetKind::Footprint) => state.set_export_footprint(enabled),
        Ok(AssetKind::Model3d) => state.set_export_model_3d(enabled),
        Err(e) => return Err(e),
    }
    Ok(())
}

/// Switches overwriting of the named asset kind on or off; it stays off for a kind that is
/// not exported.
pub fn set_export_overwrite_enabled(state: &mut MonitorState, target: &str, enabled: bool) -> (r: Result<
    (),
    String,
>)
    ensures
        match asset_kind_of(target@) {
            Some(AssetKind::Symbol) => r is Ok && *final(state) == (MonitorState {
                export_overwrite_symbol: old(state).export_symbol && enabled,
                ..*old(state)
            }),
            Some(AssetKind::Footprint) => r is Ok && *final(state) == (MonitorState {
                export_overwrite_footprint: old(state).export_footprint && enabled,
                ..*old(state)
            }),
            Some(AssetKind::Model3d) => r is Ok && *final(state) == (MonitorState {
                export_overwrite_model_3d: old(state).export_model_3d && enabled,
                ..*old(state)
            }),
            None => r is Err && *final(state) == *old(state),
        },
{
    match parse_export_asset_kind(target) {
        Ok(AssetKind::Symbol) => state.set_export_overwrite_symbol(enabled),
        Ok(AssetKind::Footprint) => state.set_export_overwrite_footprint(enabled),
        Ok(AssetKind::Model3d) => state.set_export_overwrite_model_3d(enabled),
        Err(e) => return Err(e),
    }
    Ok(())
}

/// Sets the model format new exports default to; an unknown format is refused.
pub fn set_default_model_format(state: &mut MonitorState, format: &str) -> (r: Result<(), String>)
    ensures
        match model_format_of(format@) {
            Some(f) => r is Ok && *final(state) == (MonitorState { default_model_format: f, ..*old(state) }),
            None => r is Err && r->Err_0@ == "Unsupported default model format: "@ + trim(format@)
                && *final(state) == *old(state),
        },
{
    match ModelFormat::parse(format) {
        Some(f) => {
            state.default_model_format = f;
            Ok(())
        },
        None => {
            let mut v: Vec<char> = Vec::new();
            extend_str(&mut v, "Unsupported default model format: ");
            let t = crate::text::trim_str(format);
            extend_str(&mut v, t.as_str());
            Err(string_from(v.as_slice()))
        },
    }
}

} // verus!
