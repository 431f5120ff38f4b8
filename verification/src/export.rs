//! Turning the desktop's export settings into a conversion run.
use vstd::prelude::*;
use crate::text::{chars_of, chars_eq, string_from, trim, trim_str};
use crate::paths::{extension, extension_chars};
use crate::config::ExportPathMode;
use crate::error::{AppError, error_text};
use crate::fill_color::{SymbolFillColor, parsed_color};
use crate::export_options::{
    ComponentConversionRequest, FootprintExportOptions, Model3dExportOptions, RunOptions, RunRequest,
    SymbolExportOptions,
};
use crate::runner::{copy_strings, FailedItem, RunSummary};
use crate::monitor::{MonitorState, logged};
use crate::text::{decimal, extend_str};

verus! {

/// A progress message of a running export.
#[derive(Clone, Debug, PartialEq, Eq)]
pub struct ExportProgressPayload {
    pub tool: String,
    pub message: String,
    pub determinate: bool,
    pub current: Option<usize>,
    pub total: Option<usize>,
}

/// What the desktop asks an export to do.
#[derive(Clone, Debug, PartialEq, Eq)]
pub struct ExportRequest {
    pub ids: Vec<String>,
    pub output_path: String,
    pub show_terminal: bool,
    pub parallel: usize,
    pub path_mode: ExportPathMode,
    pub export_symbol: bool,
    pub export_footprint: bool,
    pub export_model_3d: bool,
    pub overwrite_symbol: bool,
    pub overwrite_footprint: bool,
    pub overwrite_model_3d: bool,
    pub symbol_fill_color: Option<String>,
}

/// A file that marks a folder as a KiCad project.
pub open spec fn project_file(path: Seq<char>) -> bool {
    extension(path) == Some("kicad_pro"@) || extension(path) == Some("kicad_pcb"@) || extension(path)
        == Some("pro"@)
}

/// Whether `path` is a KiCad project or board file.
pub fn is_project_file(path: &str) -> (r: bool)
    ensures
        r == project_file(path@),
{
    let p = chars_of(path);
    match extension_chars(p.as_slice()) {
        Some(e) => {
            let a = chars_of("kicad_pro");
            let b = chars_of("kicad_pcb");
            let c = chars_of("pro");
            chars_eq(e.as_slice(), a.as_slice()) || chars_eq(e.as_slice(), b.as_slice()) || chars_eq(
                e.as_slice(),
                c.as_slice(),
            )
        },
        None => false,
    }
}

/// Whether footprints refer to models relative to the project: so chosen, or, left to
/// the app, when the output folder holds a KiCad project (`project_detected`).
pub open spec fn project_relative(mode: ExportPathMode, project_detected: bool) -> bool {
    match mode {
        ExportPathMode::ProjectRelative => true,
        ExportPathMode::LibraryRelative => false,
        ExportPathMode::Auto => project_detected,
    }
}

/// The run that an export request stands for, or the message of why it is refused: a
/// fill colour that does not parse, no asset selected, no component, or no worker.
pub open spec fn core_request(req: ExportRequest, project_detected: bool) -> Result<(Option<SymbolFillColor>, bool), Seq<char>> {
    let color: Result<Option<SymbolFillColor>, Seq<char>> = match req.symbol_fill_color {
        Some(v) => if trim(v@).len() == 0 {
            Ok(None)
        } else {
            match parsed_color(v@) {
                Some(c) => Ok(Some(c)),
                None => Err("Invalid symbol fill color '"@ + v@ + "'. Expected #RRGGBB or #RRGGBBAA"@),
            }
        },
        None => Ok(None),
    };
    match color {
        Err(m) => Err(m),
        Ok(c) => if !(req.export_symbol || req.export_footprint || req.export_model_3d) {
            Err("At least one conversion asset must be selected"@)
        } else if req.ids@.len() == 0 {
            Err("No component IDs were provided"@)
        } else if req.parallel == 0 {
            Err("Parallel worker count must be greater than zero"@)
        } else {
            Ok((c, project_relative(req.path_mode, project_detected)))
        },
    }
}

/// Builds the conversion run for a desktop export request; `project_detected` says whether
/// the output folder holds a KiCad project.
pub fn build_core_request(req: &ExportRequest, project_detected: bool) -> (r: Result<RunRequest, String>)
    ensures
        match r {
            Ok(q) => core_request(*req, project_detected) matches Ok((c, rel)) && {
                &&& q.lcsc_ids@.map_values(|s: String| s@) == req.ids@.map_values(|s: String| s@)
                &&& q.run.output@ == req.output_path@
                &&& q.run.continue_on_error
                &&& q.run.parallel == req.parallel
                &&& q.component.convert_symbol == req.export_symbol
                &&& q.component.convert_footprint == req.export_footprint
                &&& q.component.convert_model_3d == req.export_model_3d
                &&& q.component.symbol == SymbolExportOptions {
                    symbol_fill_color: c,
                    overwrite: req.overwrite_symbol,
                }
                &&& q.component.footprint == FootprintExportOptions {
                    include_3d_model: req.export_model_3d,
                    project_relative_3d: rel,
                    overwrite: req.overwrite_footprint,
                }
                &&& q.component.model_3d == Model3dExportOptions { overwrite: req.overwrite_model_3d }
            },
            Err(m) => core_request(*req, project_detected) == Err::<(Option<SymbolFillColor>, bool), Seq<char>>(m@),
        },
{
    let color: Option<SymbolFillColor> = match &req.symbol_fill_color {
        Some(v) => {
            if trim_str(v.as_str()).as_str().is_empty() {
                None
            } else {
                match SymbolFillColor::parse(v.as_str()) {
                    Ok(c) => Some(c),
                    Err(e) => return Err(e.message()),
                }
            }
        },
        None => None,
    };
    let rel = match req.path_mode {
        ExportPathMode::ProjectRelative => true,
        ExportPathMode::LibraryRelative => false,
        ExportPathMode::Auto => project_detected,
    };
    let component = match ComponentConversionRequest::new(
        req.export_symbol,
        req.export_footprint,
        req.export_model_3d,
        SymbolExportOptions::new(color, req.overwrite_symbol),
        FootprintExportOptions::new(req.export_model_3d, rel, req.overwrite_footprint),
        Model3dExportOptions::new(req.overwrite_model_3d),
    ) {
        Ok(c) => c,
        Err(e) => return Err(e.message()),
    };
    let ids = copy_strings(&req.ids);
    assert(ids@.map_values(|s: String| s@).len() == ids@.len());
    assert(req.ids@.map_values(|s: String| s@).len() == req.ids@.len());
    let ghost id_count = ids@.len();
    match RunRequest::new(
        ids,
        RunOptions { output: req.output_path.clone(), continue_on_error: true, parallel: req.parallel },
        component,
    ) {
        Ok(q) => {
            assert(req.export_symbol || req.export_footprint || req.export_model_3d);
            assert(id_count > 0);
            assert(req.ids@.len() > 0);
            assert(req.parallel > 0);
            assert(rel == project_relative(req.path_mode, project_detected));
            assert(core_request(*req, project_detected) == Ok::<(Option<SymbolFillColor>, bool), Seq<char>>((color, rel)));
            assert(q.component.symbol == SymbolExportOptions { symbol_fill_color: color, overwrite: req.overwrite_symbol });
            assert(q.run.output@ == req.output_path@);
            Ok(q)
        },
        Err(e) => Err(e.message()),
    }
}

/// What an export reports when it ends.
#[derive(Debug, PartialEq, Eq)]
pub struct ExportFinishedPayload {
    pub tool: String,
    pub success: bool,
    pub message: String,
    pub failed_items: Vec<FailedItem>,
}

/// The texts of `parts` joined by `sep`.
pub open spec fn joined_by(parts: Seq<Seq<char>>, sep: Seq<char>) -> Seq<char>
    decreases parts.len(),
{
    if parts.len() == 0 {
        Seq::empty()
    } else if parts.len() == 1 {
        parts[0]
    } else {
        joined_by(parts.drop_last(), sep) + sep + parts.last()
    }
}

fn join_strings(parts: &Vec<String>, sep: &str) -> (r: String)
    ensures
        r@ == joined_by(parts@.map_values(|s: String| s@), sep@),
{
    let ghost pv = parts@.map_values(|s: String| s@);
    let mut v: Vec<char> = Vec::new();
    let mut k: usize = 0;
    while k < parts.len()
        invariant
            k <= parts.len(),
            pv == parts@.map_values(|s: String| s@),
            v@ == joined_by(pv.take(k as int), sep@),
        decreases parts.len() - k,
    {
        if k > 0 {
            extend_str(&mut v, sep);
        }
        extend_str(&mut v, parts[k].as_str());
        assert(pv.take(k + 1).drop_last() =~= pv.take(k as int));
        k = k + 1;
    }
    assert(pv.take(parts.len() as int) =~= pv);
    string_from(v.as_slice())
}

/// The message an export ends with: how many components were done and where, the failures
/// and their ids, that nothing was left to do, or why the run could not start.
pub open spec fn finish_message(result: Result<Option<RunSummary>, String>) -> Seq<char> {
    match result {
        Ok(Some(s)) => if s.failed == 0 {
            "HappyJLC completed: "@ + decimal(s.success as nat) + " item(s) -> "@ + s.output_dir@
        } else {
            "HappyJLC completed with "@ + decimal(s.failed as nat) + " failure(s) out of "@ + decimal(
                s.total as nat,
            ) + " item(s): "@ + joined_by(s.failed_ids@.map_values(|x: String| x@), ", "@)
        },
        Ok(None) => "All components already completed."@,
        Err(e) => "HappyJLC export failed: "@ + e@,
    }
}

/// Whether an export that ended with `result` succeeded: no failed component, or nothing
/// to do.
pub open spec fn finish_success(result: Result<Option<RunSummary>, String>) -> bool {
    match result {
        Ok(Some(s)) => s.failed == 0,
        Ok(None) => true,
        Err(_) => false,
    }
}

/// What ends an export: records the result in the monitor's state (no longer running, the
/// message as the last result and at the top of the log) and gives the report to send,
/// whose message says so instead when no component was asked for.
pub fn finish_export(state: &mut MonitorState, result: Result<Option<RunSummary>, String>, requested_count: usize) -> (r:
    ExportFinishedPayload)
    ensures
        final(state).log() == logged(old(state).log(), finish_message(result)),
        *final(state) == (MonitorState {
            export_running: false,
            export_last_result: final(state).export_last_result,
            match_debug_log: final(state).match_debug_log,
            ..*old(state)
        }),
        final(state).export_last_result matches Some(m) && m@ == finish_message(result),
        r.tool@ == "export"@,
        r.success == finish_success(result),
        r.message@ == if requested_count == 0 {
            "No components were requested."@
        } else {
            finish_message(result)
        },
        match result {
            Ok(Some(s)) => if s.failed > 0 {
                r.failed_items@ == s.failed_items@
            } else {
                r.failed_items@.len() == 0
            },
            _ => r.failed_items@.len() == 0,
        },
{
    let ghost want = finish_message(result);
    let (success, message, failed_items): (bool, String, Vec<FailedItem>) = match result {
        Ok(Some(summary)) => {
            let mut v: Vec<char> = Vec::new();
            if summary.failed == 0 {
                extend_str(&mut v, "HappyJLC completed: ");
                let n = crate::text::decimal_string(summary.success as u64);
                extend_str(&mut v, n.as_str());
                extend_str(&mut v, " item(s) -> ");
                extend_str(&mut v, summary.output_dir.as_str());
                (true, string_from(v.as_slice()), Vec::new())
            } else {
                extend_str(&mut v, "HappyJLC completed with ");
                let f = crate::text::decimal_string(summary.failed as u64);
                extend_str(&mut v, f.as_str());
                extend_str(&mut v, " failure(s) out of ");
                let t = crate::text::decimal_string(summary.total as u64);
                extend_str(&mut v, t.as_str());
                extend_str(&mut v, " item(s): ");
                let ids = join_strings(&summary.failed_ids, ", ");
                extend_str(&mut v, ids.as_str());
                (false, string_from(v.as_slice()), summary.failed_items)
            }
        },
        Ok(None) => (true, "All components already completed.".to_owned(), Vec::new()),
        Err(e) => {
            let mut v: Vec<char> = Vec::new();
            extend_str(&mut v, "HappyJLC export failed: ");
            extend_str(&mut v, e.as_str());
            (false, string_from(v.as_slice()), Vec::new())
        },
    };
    assert(message@ == want);
    state.export_running = false;
    state.export_last_result = Some(message.clone());
    state.add_debug_log(message.clone());
    ExportFinishedPayload {
        tool: "export".to_owned(),
        success,
        message: if requested_count == 0 {
            "No components were requested.".to_owned()
        } else {
            message
        },
        failed_items,
    }
}

/// Marks an export as started: running, with no result yet.
pub fn start_export(state: &mut MonitorState)
    ensures
        *final(state) == (MonitorState { export_running: true, export_last_result: None, ..*old(state) }),
{
    state.export_running = true;
    state.export_last_result = None;
}

/// The first progress message of an export.
pub fn preparing_message(show_terminal: bool) -> (r: &'static str)
    ensures
        r@ == if show_terminal {
            "Preparing HappyJLC export in embedded background mode..."@
        } else {
            "Preparing HappyJLC export..."@
        },
{
    if show_terminal {
        "Preparing HappyJLC export in embedded background mode..."
    } else {
        "Preparing HappyJLC export..."
    }
}

/// A progress message that names a count or a component between two fixed texts.
pub fn progress_message(before: &str, subject: &str, after: &str) -> (r: String)
    ensures
        r@ == before@ + subject@ + after@,
{
    let mut v: Vec<char> = Vec::new();
    extend_str(&mut v, before);
    extend_str(&mut v, subject);
    extend_str(&mut v, after);
    string_from(v.as_slice())
}

} // verus!
