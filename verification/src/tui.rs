//! The terminal interface's own state: which pane has focus, which fields it shows, and
//! how a selection moves.
use vstd::prelude::*;
use crate::text::{chars_of, extend_chars, extend_str, string_from, decimal, decimal_chars, lines, lines_of};
use crate::config::ExportPathMode;
use crate::monitor::MonitorState;

verus! {

/// The pane that keys act on.
#[derive(Clone, Copy, Debug, PartialEq, Eq, Structural)]
pub enum FocusPane {
    Queue,
    Trace,
    Run,
    Clipboard,
}

pub open spec fn focus_next(f: FocusPane) -> FocusPane {
    match f {
        FocusPane::Queue => FocusPane::Trace,
        FocusPane::Trace => FocusPane::Run,
        FocusPane::Run => FocusPane::Clipboard,
        FocusPane::Clipboard => FocusPane::Queue,
    }
}

pub open spec fn focus_prev(f: FocusPane) -> FocusPane {
    match f {
        FocusPane::Queue => FocusPane::Clipboard,
        FocusPane::Trace => FocusPane::Queue,
        FocusPane::Run => FocusPane::Trace,
        FocusPane::Clipboard => FocusPane::Run,
    }
}

impl FocusPane {
    /// The pane after this one, round the four panes.
    pub fn next(self) -> (r: Self)
        ensures
            r == focus_next(self),
    {
        match self {
            FocusPane::Queue => FocusPane::Trace,
            FocusPane::Trace => FocusPane::Run,
            FocusPane::Run => FocusPane::Clipboard,
            FocusPane::Clipboard => FocusPane::Queue,
        }
    }

    /// The pane before this one, round the four panes.
    pub fn prev(self) -> (r: Self)
        ensures
            r == focus_prev(self),
    {
        match self {
            FocusPane::Queue => FocusPane::Clipboard,
            FocusPane::Trace => FocusPane::Queue,
            FocusPane::Run => FocusPane::Trace,
            FocusPane::Clipboard => FocusPane::Run,
        }
    }
}

/// Law: moving the focus back undoes moving it on, and four moves on come back round.
pub proof fn law_focus_cycle(f: FocusPane)
    ensures
        focus_prev(focus_next(f)) == f,
        focus_next(focus_prev(f)) == f,
        focus_next(focus_next(focus_next(focus_next(f)))) == f,
{
}

/// The tab shown in the trace pane.
#[derive(Clone, Copy, Debug, PartialEq, Eq, Structural)]
pub enum TraceTab {
    History,
    Log,
    Result,
}

pub open spec fn tab_next(t: TraceTab) -> TraceTab {
    match t {
        TraceTab::History => TraceTab::Log,
        TraceTab::Log => TraceTab::Result,
        TraceTab::Result => TraceTab::History,
    }
}

pub open spec fn tab_index(t: TraceTab) -> int {
    match t {
        TraceTab::History => 0,
        TraceTab::Log => 1,
        TraceTab::Result => 2,
    }
}

impl TraceTab {
    /// The next tab, round the three tabs.
    pub fn next(self) -> (r: Self)
        ensures
            r == tab_next(self),
    {
        match self {
            TraceTab::History => TraceTab::Log,
            TraceTab::Log => TraceTab::Result,
            TraceTab::Result => TraceTab::History,
        }
    }

    /// The tabs' titles, in order.
    pub fn titles() -> (r: [&'static str; 3])
        ensures
            r@[0]@ == "History"@,
            r@[1]@ == "Log"@,
            r@[2]@ == "Result"@,
    {
        ["History", "Log", "Result"]
    }

    /// The tab's position among the titles.
    pub fn index(self) -> (r: usize)
        ensures
            r == tab_index(self),
    {
        match self {
            TraceTab::History => 0,
            TraceTab::Log => 1,
            TraceTab::Result => 2,
        }
    }
}

/// Law: the tab after the tab at position `i` is at position `i + 1`, round the three.
pub proof fn law_tab_cycle(t: TraceTab)
    ensures
        tab_index(tab_next(t)) == (tab_index(t) + 1) % 3,
        tab_next(tab_next(tab_next(t))) == t,
{
}

/// The tool that runs exports.
#[derive(Clone, Copy, Debug, PartialEq, Eq, Structural)]
pub enum Exporter {
    Export,
}

impl Exporter {
    pub fn label(self) -> (r: &'static str)
        ensures
            r@ == "export"@,
    {
        match self {
            Exporter::Export => "export",
        }
    }
}

/// A field of the run pane.
#[derive(Clone, Copy, Debug, PartialEq, Eq, Structural)]
pub enum RunField {
    Export,
    OutputPath,
    Terminal,
    Parallel,
    PathMode,
    Overwrite,
}

/// The fields the run pane shows for an exporter, in order.
pub open spec fn run_field_list(e: Exporter) -> Seq<RunField> {
    seq![
        RunField::Export,
        RunField::OutputPath,
        RunField::Terminal,
        RunField::Parallel,
        RunField::PathMode,
        RunField::Overwrite,
    ]
}

/// The fields the run pane shows for `exporter`.
pub fn run_fields(exporter: Exporter) -> (r: Vec<RunField>)
    ensures
        r@ == run_field_list(exporter),
{
    let r = vec![
        RunField::Export,
        RunField::OutputPath,
        RunField::Terminal,
        RunField::Parallel,
        RunField::PathMode,
        RunField::Overwrite,
    ];
    assert(r@ =~= run_field_list(exporter));
    r
}

pub open spec fn run_field_name(f: RunField) -> Seq<char> {
    match f {
        RunField::Export => "action"@,
        RunField::OutputPath => "output"@,
        RunField::Terminal => "terminal"@,
        RunField::Parallel => "parallel"@,
        RunField::PathMode => "3d mode"@,
        RunField::Overwrite => "overwrite"@,
    }
}

/// The label of a run field.
pub fn run_field_label(exporter: Exporter, field: RunField) -> (r: &'static str)
    ensures
        r@ == run_field_name(field),
{
    match field {
        RunField::Export => "action",
        RunField::OutputPath => "output",
        RunField::Terminal => "terminal",
        RunField::Parallel => "parallel",
        RunField::PathMode => "3d mode",
        RunField::Overwrite => "overwrite",
    }
}

/// A field being edited and what was typed so far.
#[derive(Clone, Debug, PartialEq, Eq)]
pub struct InputMode {
    pub field: RunField,
    pub buffer: String,
}

/// The interface's state between frames.
#[derive(Clone, Debug, PartialEq, Eq)]
pub struct UiState {
    pub focus: FocusPane,
    pub trace_tab: TraceTab,
    pub exporter: Exporter,
    pub queue_index: usize,
    pub trace_index: usize,
    pub run_index: usize,
    pub input: Option<InputMode>,
    pub status: String,
    pub last_result_cache: Option<String>,
}

impl Default for UiState {
    fn default() -> (r: Self)
        ensures
            r.focus == FocusPane::Queue,
            r.trace_tab == TraceTab::History,
            r.exporter == Exporter::Export,
            r.queue_index == 0 && r.trace_index == 0 && r.run_index == 0,
            r.input is None,
            r.status@ == "Ready"@,
            r.last_result_cache is None,
    {
        UiState {
            focus: FocusPane::Queue,
            trace_tab: TraceTab::History,
            exporter: Exporter::Export,
            queue_index: 0,
            trace_index: 0,
            run_index: 0,
            input: None,
            status: "Ready".to_owned(),
            last_result_cache: None,
        }
    }
}

/// A selection kept inside a list of `len` items: the last item when past the end, and 0
/// for an empty list.
pub open spec fn clamped(index: int, len: int) -> int {
    if len == 0 {
        0
    } else if index < len - 1 {
        index
    } else {
        len - 1
    }
}

/// Keeps a selection inside a list of `len` items.
pub fn clamp_index(index: usize, len: usize) -> (r: usize)
    ensures
        r == clamped(index as int, len as int),
        len == 0 ==> r == 0,
        len > 0 ==> r < len,
{
    if len == 0 {
        0
    } else if index < len - 1 {
        index
    } else {
        len - 1
    }
}

/// The selection after moving it by `delta` in a list of `len` items, kept inside the
/// list.
pub open spec fn moved(index: int, len: int, delta: int) -> int {
    if len == 0 {
        0
    } else {
        let n = index + delta;
        if n < 0 {
            0
        } else if n > len - 1 {
            len - 1
        } else {
            n
        }
    }
}

/// Moves a selection by `delta` in a list of `len` items.
pub fn move_index(index: &mut usize, len: usize, delta: isize)
    requires
        *old(index) <= isize::MAX,
        len <= isize::MAX,
    ensures
        *final(index) == moved(*old(index) as int, len as int, delta as int),
{
    if len == 0 {
        *index = 0;
        return;
    }
    let current: isize = *index as isize;
    let last: isize = (len - 1) as isize;
    let next: isize = if delta < 0 {
        if current + delta < 0 {
            0
        } else {
            current + delta
        }
    } else if current > last - delta {
        last
    } else {
        current + delta
    };
    let clamped_next: isize = if next < 0 {
        0
    } else if next > last {
        last
    } else {
        next
    };
    *index = clamped_next as usize;
}

/// The next path mode when a key turns the setting up (`delta >= 0`) or down.
pub open spec fn path_mode_step(m: ExportPathMode, down: bool) -> ExportPathMode {
    match m {
        ExportPathMode::Auto => if down {
            ExportPathMode::LibraryRelative
        } else {
            ExportPathMode::ProjectRelative
        },
        ExportPathMode::ProjectRelative => if down {
            ExportPathMode::Auto
        } else {
            ExportPathMode::LibraryRelative
        },
        ExportPathMode::LibraryRelative => if down {
            ExportPathMode::ProjectRelative
        } else {
            ExportPathMode::Auto
        },
    }
}

/// The path mode after one step of the setting, down when `delta` is negative.
pub fn next_path_mode(m: ExportPathMode, delta: isize) -> (r: ExportPathMode)
    ensures
        r == path_mode_step(m, delta < 0),
{
    let down = delta < 0;
    match m {
        ExportPathMode::Auto => if down {
            ExportPathMode::LibraryRelative
        } else {
            ExportPathMode::ProjectRelative
        },
        ExportPathMode::ProjectRelative => if down {
            ExportPathMode::Auto
        } else {
            ExportPathMode::LibraryRelative
        },
        ExportPathMode::LibraryRelative => if down {
            ExportPathMode::ProjectRelative
        } else {
            ExportPathMode::Auto
        },
    }
}

/// Law: a step down undoes a step up, and three steps up come back round.
pub proof fn law_path_mode_cycle(m: ExportPathMode)
    ensures
        path_mode_step(path_mode_step(m, false), true) == m,
        path_mode_step(path_mode_step(path_mode_step(m, false), false), false) == m,
{
}

/// The worker count after one step of the setting: never below one.
pub fn next_parallel(current: usize, delta: isize) -> (r: usize)
    ensures
        r == if delta < 0 {
            if current <= 2 {
                1
            } else {
                current - 1
            }
        } else if current == usize::MAX {
            current as int
        } else {
            current + 1
        },
{
    if delta < 0 {
        if current <= 2 {
            1
        } else {
            current - 1
        }
    } else if current == usize::MAX {
        current
    } else {
        current + 1
    }
}

/// `on` or `off`.
pub fn yes_no(value: bool) -> (r: &'static str)
    ensures
        r@ == if value {
            "on"@
        } else {
            "off"@
        },
{
    if value {
        "on"
    } else {
        "off"
    }
}

/// `input` cut to its first `max` characters, with `…` when anything was cut.
pub open spec fn trimmed_line(input: Seq<char>, max: nat) -> Seq<char> {
    if input.len() > max {
        input.take(max as int).push('…')
    } else {
        input
    }
}

/// Cuts a line to `max` characters (see `trimmed_line`).
pub fn trim_line(input: &str, max: usize) -> (r: String)
    ensures
        r@ == trimmed_line(input@, max as nat),
{
    let cs = chars_of(input);
    if cs.len() > max {
        let mut v = crate::sexpr::slice_range(cs.as_slice(), 0, max);
        v.push('…');
        assert(v@ =~= input@.take(max as int).push('…'));
        string_from(v.as_slice())
    } else {
        string_from(cs.as_slice())
    }
}

/// The first `max_lines` lines of `input`, each cut to `max_cols` characters, joined by
/// line breaks.
pub open spec fn trimmed_block(input: Seq<char>, max_lines: nat, max_cols: nat) -> Seq<char> {
    let ls = lines(input);
    let kept = if ls.len() > max_lines {
        ls.take(max_lines as int)
    } else {
        ls
    };
    crate::text::join_lines(kept.map_values(|l: Seq<char>| trimmed_line(l, max_cols)))
}

/// Cuts a block of text to `max_lines` lines of `max_cols` characters.
pub fn trim_block(input: &str, max_lines: usize, max_cols: usize) -> (r: String)
    ensures
        r@ == trimmed_block(input@, max_lines as nat, max_cols as nat),
{
    let cs = chars_of(input);
    let ls = lines_of(cs.as_slice());
    let ghost lv = lines(input@);
    let n = if ls.len() > max_lines {
        max_lines
    } else {
        ls.len()
    };
    let ghost kept = if lv.len() > max_lines {
        lv.take(max_lines as int)
    } else {
        lv
    };
    let mut cut: Vec<Vec<char>> = Vec::new();
    let mut k: usize = 0;
    while k < n
        invariant
            k <= n <= ls@.len(),
            ls@.len() == lv.len(),
            forall|j: int| 0 <= j < ls@.len() ==> (#[trigger] ls@[j])@ == lv[j],
            kept.len() == n,
            forall|j: int| 0 <= j < n ==> #[trigger] kept[j] == lv[j],
            cut@.map_values(|v: Vec<char>| v@) == kept.map_values(|l: Seq<char>| trimmed_line(l, max_cols as nat)).take(
                k as int,
            ),
        decreases n - k,
    {
        let s = string_from(ls[k].as_slice());
        let t = trim_line(s.as_str(), max_cols);
        let ghost before = cut@.map_values(|v: Vec<char>| v@);
        cut.push(chars_of(t.as_str()));
        assert(cut@.map_values(|v: Vec<char>| v@) =~= before.push(trimmed_line(kept[k as int], max_cols as nat)));
        assert(kept.map_values(|l: Seq<char>| trimmed_line(l, max_cols as nat)).take(k + 1) =~= before.push(
            trimmed_line(kept[k as int], max_cols as nat),
        ));
        k = k + 1;
    }
    assert(kept.map_values(|l: Seq<char>| trimmed_line(l, max_cols as nat)).take(n as int) =~= kept.map_values(
        |l: Seq<char>| trimmed_line(l, max_cols as nat),
    ));
    let j = crate::text::join_lines_chars(cut.as_slice());
    string_from(j.as_slice())
}

/// The overwrite setting in words: `all`, `partial` or `off`.
pub open spec fn overwrite_words(s: bool, f: bool, m: bool) -> Seq<char> {
    if s && f && m {
        "all"@
    } else if s || f || m {
        "partial"@
    } else {
        "off"@
    }
}

/// How the overwrite setting reads.
pub fn overwrite_summary(s: bool, f: bool, m: bool) -> (r: &'static str)
    ensures
        r@ == overwrite_words(s, f, m),
{
    if s && f && m {
        "all"
    } else if s || f || m {
        "partial"
    } else {
        "off"
    }
}

/// The path mode in words.
pub fn path_mode_name(m: ExportPathMode) -> (r: &'static str)
    ensures
        r@ == match m {
            ExportPathMode::Auto => "auto"@,
            ExportPathMode::ProjectRelative => "project_relative"@,
            ExportPathMode::LibraryRelative => "library_relative"@,
        },
{
    match m {
        ExportPathMode::Auto => "auto",
        ExportPathMode::ProjectRelative => "project_relative",
        ExportPathMode::LibraryRelative => "library_relative",
    }
}

/// A key as the interface reads it.
#[derive(Clone, Copy, Debug, PartialEq, Eq, Structural)]
pub enum KeyCode {
    Char(char),
    Tab,
    BackTab,
    Up,
    Down,
    Left,
    Right,
    Enter,
    Esc,
    Backspace,
    Other,
}

/// A key press: the key, and whether it came without modifier keys.
#[derive(Clone, Copy, Debug, PartialEq, Eq, Structural)]
pub struct KeyPress {
    pub code: KeyCode,
    pub plain: bool,
}

/// What the interface shows when a key is pressed, as far as keys depend on it.
#[derive(Clone, Debug)]
pub struct KeyContext {
    pub monitoring: bool,
    pub queue_len: usize,
    pub trace_len: usize,
    pub export_output_path: String,
}

/// The work a key asks of the rest of the program.
#[derive(Clone, Debug, PartialEq, Eq)]
pub enum UiAction {
    Nothing,
    Quit,
    ToggleMonitoring,
    ClearAll,
    SaveHistory,
    SaveMatched,
    Export,
    /// Step the selected run setting up (`1`) or down (`-1`).
    AdjustRunField(isize),
    /// Store the edited value of a field.
    ApplyInput { field: RunField, value: String },
}

pub open spec fn is_plain_char(k: KeyPress, c: char) -> bool {
    k.plain && k.code == KeyCode::Char(c)
}

/// The selection indices after moving by `delta` in the focused pane.
pub open spec fn moved_selection(u: UiState, ctx: KeyContext, delta: int, n: UiState) -> bool {
    &&& n.focus == u.focus && n.trace_tab == u.trace_tab && n.exporter == u.exporter
    &&& n.input == u.input && n.status == u.status && n.last_result_cache == u.last_result_cache
    &&& n.queue_index == if u.focus == FocusPane::Queue {
        moved(u.queue_index as int, ctx.queue_len as int, delta)
    } else {
        u.queue_index as int
    }
    &&& n.trace_index == if u.focus == FocusPane::Trace {
        moved(u.trace_index as int, ctx.trace_len as int, delta)
    } else {
        u.trace_index as int
    }
    &&& n.run_index == if u.focus == FocusPane::Run {
        moved(u.run_index as int, 6, delta)
    } else {
        u.run_index as int
    }
}

/// The state and the work after key `k` outside an edit (see `handle_key`).
pub open spec fn key_outcome(u: UiState, k: KeyPress, ctx: KeyContext, n: UiState, a: UiAction) -> bool {
    if is_plain_char(k, 'q') {
        n == u && a == UiAction::Quit
    } else if k.code == KeyCode::BackTab {
        n == UiState { focus: focus_prev(u.focus), ..u } && a == UiAction::Nothing
    } else if k.code == KeyCode::Tab {
        n == UiState { focus: focus_next(u.focus), ..u } && a == UiAction::Nothing
    } else if is_plain_char(k, 'm') {
        n == UiState { status: n.status, ..u } && a == UiAction::ToggleMonitoring && n.status@ == (
        if ctx.monitoring {
            "Monitoring paused"@
        } else {
            "Monitoring resumed"@
        })
    } else if is_plain_char(k, 'c') {
        n == UiState { status: n.status, ..u } && a == UiAction::ClearAll && n.status@
            == "Cleared history, matches, and exporter state"@
    } else if is_plain_char(k, 's') {
        n == u && a == (if u.focus == FocusPane::Trace {
            UiAction::SaveHistory
        } else {
            UiAction::SaveMatched
        })
    } else if is_plain_char(k, 't') {
        n == UiState { trace_tab: tab_next(u.trace_tab), trace_index: 0, ..u } && a == UiAction::Nothing
    } else if is_plain_char(k, 'e') {
        n == u && a == UiAction::Export
    } else if k.code == KeyCode::Up || k.code == KeyCode::Char('k') {
        moved_selection(u, ctx, -1, n) && a == UiAction::Nothing
    } else if k.code == KeyCode::Down || k.code == KeyCode::Char('j') {
        moved_selection(u, ctx, 1, n) && a == UiAction::Nothing
    } else if (k.code == KeyCode::Left || k.code == KeyCode::Char('h')) && u.focus == FocusPane::Run {
        n == u && a == UiAction::AdjustRunField(-1isize)
    } else if (k.code == KeyCode::Right || k.code == KeyCode::Char('l')) && u.focus == FocusPane::Run {
        n == u && a == UiAction::AdjustRunField(1isize)
    } else if k.code == KeyCode::Enter && u.focus == FocusPane::Run {
        let f = run_field_list(u.exporter)[u.run_index as int];
        if f == RunField::Export {
            n == u && a == UiAction::Export
        } else if f == RunField::OutputPath {
            a == UiAction::Nothing && n == UiState { input: n.input, status: n.status, ..u } && (
            n.input matches Some(i) && i.field == RunField::OutputPath && i.buffer@
                == ctx.export_output_path@) && n.status@ == "Editing output path"@
        } else {
            n == u && a == UiAction::AdjustRunField(1isize)
        }
    } else {
        n == u && a == UiAction::Nothing
    }
}

/// The state and the work after key `k` while field `i` is being edited (see
/// `handle_key`).
pub open spec fn edit_outcome(u: UiState, i: InputMode, k: KeyPress, n: UiState, a: UiAction) -> bool {
    match k.code {
        KeyCode::Esc => n == UiState { input: None, status: n.status, ..u } && a == UiAction::Nothing
            && n.status@ == "Edit cancelled"@,
        KeyCode::Enter => n == UiState { input: None, status: n.status, ..u } && (a matches UiAction::ApplyInput {
            field,
            value,
        } && field == i.field && value@ == crate::text::trim(i.buffer@)) && n.status@ == "Updated "@
            + run_field_name(i.field),
        KeyCode::Backspace => n == UiState { input: n.input, ..u } && a == UiAction::Nothing && (
        n.input matches Some(j) && j.field == i.field && j.buffer@ == if i.buffer@.len() == 0 {
            i.buffer@
        } else {
            i.buffer@.drop_last()
        }),
        KeyCode::Char(c) => n == UiState { input: n.input, ..u } && a == UiAction::Nothing && (
        n.input matches Some(j) && j.field == i.field && j.buffer@ == i.buffer@.push(c)),
        _ => n == u && a == UiAction::Nothing,
    }
}

/// Drops the last character of a string (`String::pop`).
#[verifier::external_body]
fn pop_char(s: &mut String)
    ensures
        final(s)@ == if old(s)@.len() == 0 {
            old(s)@
        } else {
            old(s)@.drop_last()
        },
{
    s.pop();
}

fn updated_message(field: RunField) -> (r: String)
    ensures
        r@ == "Updated "@ + run_field_name(field),
{
    let mut v: Vec<char> = Vec::new();
    extend_str(&mut v, "Updated ");
    extend_str(&mut v, run_field_label(Exporter::Export, field));
    string_from(v.as_slice())
}

/// Applies a key press to the interface state and says what else it asks for: the
/// decisions of the key loop, whose work (saving, exporting, changing settings) the
/// program does.
pub fn handle_key(ui: &mut UiState, key: KeyPress, ctx: &KeyContext) -> (r: UiAction)
    requires
        old(ui).run_index < 6,
        old(ui).queue_index <= isize::MAX,
        old(ui).trace_index <= isize::MAX,
        ctx.queue_len <= isize::MAX,
        ctx.trace_len <= isize::MAX,
    ensures
        match old(ui).input {
            Some(i) => edit_outcome(*old(ui), i, key, *final(ui), r),
            None => key_outcome(*old(ui), key, *ctx, *final(ui), r),
        },
{
    if ui.input.is_some() {
        let mut input = match ui.input.take() {
            Some(i) => i,
            None => return UiAction::Nothing,
        };
        match key.code {
            KeyCode::Esc => {
                ui.status = "Edit cancelled".to_owned();
                return UiAction::Nothing;
            },
            KeyCode::Enter => {
                let value = trim_str_owned(input.buffer.as_str());
                ui.status = updated_message(input.field);
                return UiAction::ApplyInput { field: input.field, value };
            },
            KeyCode::Backspace => {
                pop_char(&mut input.buffer);
                ui.input = Some(input);
                return UiAction::Nothing;
            },
            KeyCode::Char(c) => {
                crate::text::push_char(&mut input.buffer, c);
                ui.input = Some(input);
                return UiAction::Nothing;
            },
            _ => {
                ui.input = Some(input);
                return UiAction::Nothing;
            },
        }
    }
    if key.plain && key.code == KeyCode::Char('q') {
        return UiAction::Quit;
    }
    match key.code {
        KeyCode::BackTab => {
            ui.focus = ui.focus.prev();
            return UiAction::Nothing;
        },
        KeyCode::Tab => {
            ui.focus = ui.focus.next();
            return UiAction::Nothing;
        },
        _ => {},
    }
    if key.plain && key.code == KeyCode::Char('m') {
        ui.status = if ctx.monitoring {
            "Monitoring paused".to_owned()
        } else {
            "Monitoring resumed".to_owned()
        };
        return UiAction::ToggleMonitoring;
    }
    if key.plain && key.code == KeyCode::Char('c') {
        ui.status = "Cleared history, matches, and exporter state".to_owned();
        return UiAction::ClearAll;
    }
    if key.plain && key.code == KeyCode::Char('s') {
        return if ui.focus == FocusPane::Trace {
            UiAction::SaveHistory
        } else {
            UiAction::SaveMatched
        };
    }
    if key.plain && key.code == KeyCode::Char('t') {
        ui.trace_tab = ui.trace_tab.next();
        ui.trace_index = 0;
        return UiAction::Nothing;
    }
    if key.plain && key.code == KeyCode::Char('e') {
        return UiAction::Export;
    }
    let up = key.code == KeyCode::Up || key.code == KeyCode::Char('k');
    let down = key.code == KeyCode::Down || key.code == KeyCode::Char('j');
    if up || down {
        let delta: isize = if up {
            -1
        } else {
            1
        };
        match ui.focus {
            FocusPane::Queue => move_index(&mut ui.queue_index, ctx.queue_len, delta),
            FocusPane::Trace => move_index(&mut ui.trace_index, ctx.trace_len, delta),
            FocusPane::Run => move_index(&mut ui.run_index, 6, delta),
            FocusPane::Clipboard => {},
        }
        return UiAction::Nothing;
    }
    if ui.focus == FocusPane::Run {
        if key.code == KeyCode::Left || key.code == KeyCode::Char('h') {
            return UiAction::AdjustRunField(-1);
        }
        if key.code == KeyCode::Right || key.code == KeyCode::Char('l') {
            return UiAction::AdjustRunField(1);
        }
        if key.code == KeyCode::Enter {
            let fields = run_fields(ui.exporter);
            let field = fields[ui.run_index];
            if field == RunField::Export {
                return UiAction::Export;
            }
            if field == RunField::OutputPath {
                ui.input = Some(InputMode { field, buffer: ctx.export_output_path.clone() });
                ui.status = "Editing output path".to_owned();
                return UiAction::Nothing;
            }
            return UiAction::AdjustRunField(1);
        }
    }
    UiAction::Nothing
}

fn trim_str_owned(s: &str) -> (r: String)
    ensures
        r@ == crate::text::trim(s@),
{
    crate::text::trim_str(s)
}

/// Steps a run setting of the export state (see `adjusted_state`): the terminal flag
/// toggles, the worker count and path mode step by `delta`, and the overwrite setting turns
/// all on unless all are on already.
pub open spec fn adjusted_state(m: MonitorState, field: RunField, delta: isize) -> MonitorState {
    match field {
        RunField::Terminal => MonitorState { export_show_terminal: !m.export_show_terminal, ..m },
        RunField::Parallel => {
            let p = if delta < 0 {
                if m.export_parallel <= 2 {
                    1
                } else {
                    m.export_parallel - 1
                }
            } else if m.export_parallel == usize::MAX {
                m.export_parallel as int
            } else {
                m.export_parallel + 1
            };
            MonitorState { export_parallel: p as usize, ..m }
        },
        RunField::PathMode => MonitorState {
            export_path_mode: path_mode_step(m.export_path_mode, delta < 0),
            ..m
        },
        RunField::Overwrite => {
            let all = !(m.export_overwrite_symbol && m.export_overwrite_footprint
                && m.export_overwrite_model_3d);
            MonitorState {
                export_overwrite_symbol: m.export_symbol && all,
                export_overwrite_footprint: m.export_footprint && all,
                export_overwrite_model_3d: m.export_model_3d && all,
                ..m
            }
        },
        _ => m,
    }
}

/// Steps the run setting `field` of the export state (see `adjusted_state`).
#[verifier::rlimit(60)]
pub fn adjust_run_field(state: &mut MonitorState, field: RunField, delta: isize)
    ensures
        *final(state) == adjusted_state(*old(state), field, delta),
{
    match field {
        RunField::Terminal => state.toggle_export_show_terminal(),
        RunField::Parallel => {
            let next = next_parallel(state.export_parallel, delta);
            state.set_export_parallel(next);
        },
        RunField::PathMode => {
            let next = next_path_mode(state.export_path_mode, delta);
            state.set_export_path_mode(next);
        },
        RunField::Overwrite => {
            let enable_all = !(state.export_overwrite_symbol && state.export_overwrite_footprint
                && state.export_overwrite_model_3d);
            state.set_export_overwrite_symbol(enable_all);
            state.set_export_overwrite_footprint(enable_all);
            state.set_export_overwrite_model_3d(enable_all);
        },
        _ => {},
    }
}

/// Pauses or resumes watching the clipboard; resuming forgets the last clipboard text, so
/// that the current text counts as new.
pub fn toggle_monitoring(state: &mut MonitorState)
    ensures
        final(state).monitoring == !old(state).monitoring,
        final(state).monitoring ==> *final(state) == (MonitorState {
            monitoring: true,
            last_content: final(state).last_content,
            initialized: true,
            ..*old(state)
        }) && final(state).last_content@.len() == 0,
        !final(state).monitoring ==> *final(state) == (MonitorState { monitoring: false, ..*old(state) }),
{
    state.monitoring = !state.monitoring;
    if state.monitoring {
        state.last_content = String::new();
        state.initialized = true;
    }
}

/// Forgets the clipboard history, the matched ids, the log and the export's state.
pub fn clear_all(state: &mut MonitorState)
    ensures
        *final(state) == (MonitorState {
            history: final(state).history,
            matched: final(state).matched,
            last_content: final(state).last_content,
            match_debug_log: final(state).match_debug_log,
            initialized: false,
            export_last_result: None,
            export_running: false,
            ..*old(state)
        }),
        final(state).history@.len() == 0,
        final(state).matched@.len() == 0,
        final(state).last_content@.len() == 0,
        final(state).match_debug_log@.len() == 0,
{
    state.history = Vec::new();
    state.matched = Vec::new();
    state.last_content = String::new();
    state.initialized = false;
    state.match_debug_log = Vec::new();
    state.export_last_result = None;
    state.export_running = false;
}

/// What the interface shows, read from the monitor's state for one frame.
#[derive(Clone, Debug)]
pub struct Snapshot {
    pub monitoring: bool,
    pub keyword: String,
    pub matched: Vec<(String, String)>,
    pub history: Vec<(String, String)>,
    pub logs: Vec<String>,
    pub clipboard: String,
    pub export_output_path: String,
    pub export_show_terminal: bool,
    pub export_parallel: usize,
    pub export_path_mode: ExportPathMode,
    pub export_overwrite_symbol: bool,
    pub export_overwrite_footprint: bool,
    pub export_overwrite_model_3d: bool,
    pub export_last_result: Option<String>,
    pub export_running: bool,
}

/// `s` padded on the left with spaces to `width` characters (`{:>width}`).
pub open spec fn padded_left(s: Seq<char>, width: nat) -> Seq<char> {
    if s.len() >= width {
        s
    } else {
        Seq::new((width - s.len()) as nat, |i: int| ' ') + s
    }
}

/// A history entry as the trace pane lists it: the time right-aligned in eight columns,
/// two spaces, and the text cut to 80 characters.
pub open spec fn history_line(time: Seq<char>, content: Seq<char>) -> Seq<char> {
    padded_left(time, 8) + seq![' ', ' '] + trimmed_line(content, 80)
}

fn history_line_exec(time: &str, content: &str) -> (r: String)
    ensures
        r@ == history_line(time@, content@),
{
    let tc = chars_of(time);
    let mut v: Vec<char> = Vec::new();
    if tc.len() < 8 {
        let pad = 8 - tc.len();
        let mut k: usize = 0;
        while k < pad
            invariant
                k <= pad,
                v@ == Seq::new(k as nat, |i: int| ' '),
            decreases pad - k,
        {
            v.push(' ');
            k = k + 1;
            assert(v@ =~= Seq::new(k as nat, |i: int| ' '));
        }
    }
    extend_chars(&mut v, tc.as_slice());
    v.push(' ');
    v.push(' ');
    let t = trim_line(content, 80);
    extend_str(&mut v, t.as_str());
    proof {
        if tc.len() >= 8 {
            assert(v@ =~= history_line(time@, content@));
        } else {
            assert(v@ =~= history_line(time@, content@));
        }
    }
    string_from(v.as_slice())
}

pub open spec fn strings_view(v: Seq<String>) -> Seq<Seq<char>> {
    v.map_values(|s: String| s@)
}

pub open spec fn pairs_view(v: Seq<(String, String)>) -> Seq<(Seq<char>, Seq<char>)> {
    v.map_values(|p: (String, String)| (p.0@, p.1@))
}

/// The entries a trace tab lists: the history lines, the log, or the lines of the last
/// export result.
pub open spec fn trace_list(s: Snapshot, tab: TraceTab) -> Seq<Seq<char>> {
    match tab {
        TraceTab::History => pairs_view(s.history@).map_values(
            |p: (Seq<char>, Seq<char>)| history_line(p.0, p.1),
        ),
        TraceTab::Log => strings_view(s.logs@),
        TraceTab::Result => match s.export_last_result {
            Some(r) => lines(r@),
            None => Seq::empty(),
        },
    }
}

/// The entries of a trace tab (see `trace_list`).
pub fn trace_items(snapshot: &Snapshot, tab: TraceTab) -> (r: Vec<String>)
    ensures
        strings_view(r@) == trace_list(*snapshot, tab),
{
    let mut out: Vec<String> = Vec::new();
    match tab {
        TraceTab::History => {
            let ghost hv = pairs_view(snapshot.history@);
            let ghost want = hv.map_values(|p: (Seq<char>, Seq<char>)| history_line(p.0, p.1));
            let mut k: usize = 0;
            while k < snapshot.history.len()
                invariant
                    k <= snapshot.history.len(),
                    hv == pairs_view(snapshot.history@),
                    want == hv.map_values(|p: (Seq<char>, Seq<char>)| history_line(p.0, p.1)),
                    strings_view(out@) == want.take(k as int),
                decreases snapshot.history.len() - k,
            {
                let line = history_line_exec(snapshot.history[k].0.as_str(), snapshot.history[k].1.as_str());
                let ghost before = strings_view(out@);
                assert(hv[k as int] == (snapshot.history@[k as int].0@, snapshot.history@[k as int].1@));
                out.push(line);
                assert(strings_view(out@) =~= before.push(want[k as int]));
                assert(want.take(k + 1) =~= want.take(k as int).push(want[k as int]));
                k = k + 1;
            }
            assert(want.take(snapshot.history.len() as int) =~= want);
        },
        TraceTab::Log => {
            out = crate::runner::copy_strings(&snapshot.logs);
        },
        TraceTab::Result => {
            if let Some(result) = &snapshot.export_last_result {
                let ls = lines_of(chars_of(result.as_str()).as_slice());
                let ghost lv = lines(result@);
                let mut k: usize = 0;
                while k < ls.len()
                    invariant
                        k <= ls@.len(),
                        ls@.len() == lv.len(),
                        forall|j: int| 0 <= j < ls@.len() ==> (#[trigger] ls@[j])@ == lv[j],
                        strings_view(out@) == lv.take(k as int),
                    decreases ls.len() - k,
                {
                    let ghost before = strings_view(out@);
                    out.push(string_from(ls[k].as_slice()));
                    assert(strings_view(out@) =~= before.push(lv[k as int]));
                    assert(lv.take(k + 1) =~= lv.take(k as int).push(lv[k as int]));
                    k = k + 1;
                }
                assert(lv.take(ls@.len() as int) =~= lv);
            } else {
                assert(strings_view(out@) =~= Seq::<Seq<char>>::empty());
            }
        },
    }
    out
}

/// The value a run field shows: what is being typed into it with a cursor, or the
/// setting's current value.
pub open spec fn field_value(s: Snapshot, ui: UiState, field: RunField) -> Seq<char> {
    if ui.input matches Some(i) && i.field == field {
        ui.input->Some_0.buffer@.push('_')
    } else {
        match field {
            RunField::Export => if s.export_running {
                "running..."@
            } else {
                "export matched ids"@
            },
            RunField::OutputPath => trimmed_line(s.export_output_path@, 30),
            RunField::Terminal => if s.export_show_terminal {
                "on"@
            } else {
                "off"@
            },
            RunField::Parallel => decimal(s.export_parallel as nat),
            RunField::PathMode => match s.export_path_mode {
                ExportPathMode::Auto => "auto"@,
                ExportPathMode::ProjectRelative => "project_relative"@,
                ExportPathMode::LibraryRelative => "library_relative"@,
            },
            RunField::Overwrite => overwrite_words(
                s.export_overwrite_symbol,
                s.export_overwrite_footprint,
                s.export_overwrite_model_3d,
            ),
        }
    }
}

fn copy_static(s: &str) -> (r: String)
    ensures
        r@ == s@,
{
    string_from(chars_of(s).as_slice())
}

/// The value a run field shows (see `field_value`).
pub fn run_field_value(snapshot: &Snapshot, ui: &UiState, field: RunField) -> (r: String)
    ensures
        r@ == field_value(*snapshot, *ui, field),
{
    if let Some(input) = &ui.input {
        if input.field == field {
            let mut v = chars_of(input.buffer.as_str());
            v.push('_');
            return string_from(v.as_slice());
        }
    }
    match field {
        RunField::Export => if snapshot.export_running {
            copy_static("running...")
        } else {
            copy_static("export matched ids")
        },
        RunField::OutputPath => trim_line(snapshot.export_output_path.as_str(), 30),
        RunField::Terminal => copy_static(yes_no(snapshot.export_show_terminal)),
        RunField::Parallel => crate::text::decimal_string(snapshot.export_parallel as u64),
        RunField::PathMode => copy_static(path_mode_name(snapshot.export_path_mode)),
        RunField::Overwrite => copy_static(
            overwrite_summary(
                snapshot.export_overwrite_symbol,
                snapshot.export_overwrite_footprint,
                snapshot.export_overwrite_model_3d,
            ),
        ),
    }
}

/// Shows a new export result in the status line once.
pub fn refresh_status_from_result(ui: &mut UiState, latest: Option<String>)
    ensures
        match latest {
            Some(t) => if old(ui).last_result_cache matches Some(c) && c@ == t@ {
                *final(ui) == *old(ui)
            } else {
                final(ui).status@ == t@ && (final(ui).last_result_cache matches Some(c) && c@ == t@)
                    && *final(ui) == (UiState {
                    status: final(ui).status,
                    last_result_cache: final(ui).last_result_cache,
                    ..*old(ui)
                })
            },
            None => *final(ui) == *old(ui),
        },
{
    if let Some(t) = latest {
        let same = match &ui.last_result_cache {
            Some(c) => crate::text::str_eq(c.as_str(), t.as_str()),
            None => false,
        };
        if !same {
            ui.status = t.clone();
            ui.last_result_cache = Some(t);
        }
    }
}

/// Keeps the selections inside the lists the frame shows.
pub fn clamp_indices(ui: &mut UiState, queue_len: usize, trace_len: usize)
    ensures
        *final(ui) == (UiState {
            queue_index: clamped(old(ui).queue_index as int, queue_len as int) as usize,
            trace_index: clamped(old(ui).trace_index as int, trace_len as int) as usize,
            run_index: clamped(old(ui).run_index as int, 6) as usize,
            ..*old(ui)
        }),
{
    ui.queue_index = clamp_index(ui.queue_index, queue_len);
    ui.trace_index = clamp_index(ui.trace_index, trace_len);
    ui.run_index = clamp_index(ui.run_index, 6);
}

} // verus!
