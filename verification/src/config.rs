//! The desktop settings and how older settings files are read into them.
use vstd::prelude::*;
use crate::text::{chars_of, lines, lines_of, lower_chars, lower_seq, str_eq, string_from, trim, trim_chars};

verus! {

/// The file format preferred for 3D models.
#[derive(Clone, Copy, Debug, PartialEq, Eq, Structural)]
pub enum ModelFormat {
    Step,
    Stp,
    Wrl,
}

impl Default for ModelFormat {
    fn default() -> (r: Self)
        ensures
            r == ModelFormat::Wrl,
    {
        ModelFormat::Wrl
    }
}

/// The format that `value` names, ignoring surrounding whitespace and letter case.
pub open spec fn model_format_of(value: Seq<char>) -> Option<ModelFormat> {
    let v = lower_seq(trim(value));
    if v == "step"@ {
        Some(ModelFormat::Step)
    } else if v == "stp"@ {
        Some(ModelFormat::Stp)
    } else if v == "wrl"@ {
        Some(ModelFormat::Wrl)
    } else {
        None
    }
}

impl ModelFormat {
    /// Reads a model format name.
    pub fn parse(value: &str) -> (r: Option<Self>)
        ensures
            r == model_format_of(value@),
    {
        let cs = chars_of(value);
        let t = trim_chars(cs.as_slice());
        let l = lower_chars(t.as_slice());
        let s = string_from(l.as_slice());
        if str_eq(s.as_str(), "step") {
            Some(ModelFormat::Step)
        } else if str_eq(s.as_str(), "stp") {
            Some(ModelFormat::Stp)
        } else if str_eq(s.as_str(), "wrl") {
            Some(ModelFormat::Wrl)
        } else {
            None
        }
    }
}

/// How exported footprints refer to their 3D models.
#[derive(Clone, Copy, Debug, PartialEq, Eq, Structural)]
pub enum ExportPathMode {
    Auto,
    ProjectRelative,
    LibraryRelative,
}

impl Default for ExportPathMode {
    fn default() -> (r: Self)
        ensures
            r == ExportPathMode::Auto,
    {
        ExportPathMode::Auto
    }
}

/// The monitor window's settings.
#[derive(Clone, Debug, PartialEq, Eq)]
pub struct MonitorConfig {
    pub always_on_top: bool,
    pub history_save_path: String,
    pub matched_save_path: String,
    pub imported_parts_save_path: String,
    pub kicad_library_paths: Vec<String>,
    pub default_model_format: ModelFormat,
    pub window_width: Option<u32>,
    pub window_height: Option<u32>,
    pub window_x: Option<i32>,
    pub window_y: Option<i32>,
}

pub open spec fn monitor_config_is_default(m: MonitorConfig) -> bool {
    &&& !m.always_on_top
    &&& m.history_save_path@.len() == 0
    &&& m.matched_save_path@.len() == 0
    &&& m.imported_parts_save_path@.len() == 0
    &&& m.kicad_library_paths@.len() == 0
    &&& m.default_model_format == ModelFormat::Wrl
    &&& m.window_width is None
    &&& m.window_height is None
    &&& m.window_x is None
    &&& m.window_y is None
}

impl Default for MonitorConfig {
    fn default() -> (r: Self)
        ensures
            monitor_config_is_default(r),
    {
        MonitorConfig {
            always_on_top: false,
            history_save_path: String::new(),
            matched_save_path: String::new(),
            imported_parts_save_path: String::new(),
            kicad_library_paths: Vec::new(),
            default_model_format: ModelFormat::Wrl,
            window_width: None,
            window_height: None,
            window_x: None,
            window_y: None,
        }
    }
}

/// The export settings; `legacy_overwrite` holds the single overwrite switch of older
/// settings files until it is folded into the three per-asset switches.
#[derive(Clone, Debug, PartialEq, Eq)]
pub struct ExportConfig {
    pub output_path: String,
    pub show_terminal: bool,
    pub parallel: usize,
    pub path_mode: ExportPathMode,
    pub export_symbol: bool,
    pub export_footprint: bool,
    pub export_model_3d: bool,
    pub overwrite_symbol: bool,
    pub overwrite_footprint: bool,
    pub overwrite_model_3d: bool,
    pub symbol_fill_color: Option<String>,
    pub legacy_overwrite: Option<bool>,
}

pub open spec fn export_config_is_default(e: ExportConfig) -> bool {
    &&& e.output_path@.len() == 0
    &&& e.show_terminal
    &&& e.parallel == 4
    &&& e.path_mode == ExportPathMode::Auto
    &&& e.export_symbol && e.export_footprint && e.export_model_3d
    &&& !e.overwrite_symbol && !e.overwrite_footprint && !e.overwrite_model_3d
    &&& e.symbol_fill_color is None
    &&& e.legacy_overwrite is None
}

impl Default for ExportConfig {
    fn default() -> (r: Self)
        ensures
            export_config_is_default(r),
    {
        ExportConfig {
            output_path: String::new(),
            show_terminal: true,
            parallel: 4,
            path_mode: ExportPathMode::Auto,
            export_symbol: true,
            export_footprint: true,
            export_model_3d: true,
            overwrite_symbol: false,
            overwrite_footprint: false,
            overwrite_model_3d: false,
            symbol_fill_color: None,
            legacy_overwrite: None,
        }
    }
}

/// The value of the decimal digits `d`.
pub open spec fn digits_value(d: Seq<char>) -> nat
    decreases d.len(),
{
    if d.len() == 0 {
        0
    } else {
        digits_value(d.drop_last()) * 10 + ((d.last() as u32) - 48) as nat
    }
}

/// `usize::from_str`: an optional `+` and at least one decimal digit, with a value that fits.
pub open spec fn parsed_usize(s: Seq<char>) -> Option<nat> {
    if sign_stripped(s).len() > 0 && all_digits(sign_stripped(s)) && digits_value(sign_stripped(s))
        <= usize::MAX {
        Some(digits_value(sign_stripped(s)))
    } else {
        None
    }
}

/// `s` without one leading `+`.
pub open spec fn sign_stripped(s: Seq<char>) -> Seq<char> {
    if s.len() > 0 && s[0] == '+' {
        s.drop_first()
    } else {
        s
    }
}

pub open spec fn all_digits(d: Seq<char>) -> bool {
    forall|i: int| 0 <= i < d.len() ==> '0' <= #[trigger] d[i] && d[i] <= '9'
}

/// Reads a worker count written in decimal.
pub fn parse_usize(s: &[char]) -> (r: Option<usize>)
    ensures
        match r {
            Some(v) => parsed_usize(s@) == Some(v as nat),
            None => parsed_usize(s@) is None,
        },
{
    let start: usize = if s.len() > 0 && s[0] == '+' {
        1
    } else {
        0
    };
    let ghost d = if s@.len() > 0 && s@[0] == '+' {
        s@.drop_first()
    } else {
        s@
    };
    assert(d =~= s@.skip(start as int));
    if start == s.len() {
        return None;
    }
    let mut v: usize = 0;
    let mut i: usize = start;
    while i < s.len()
        invariant
            start <= i <= s.len(),
            d == s@.skip(start as int),
            d == sign_stripped(s@),
            forall|j: int| start <= j < i ==> '0' <= #[trigger] s@[j] && s@[j] <= '9',
            v == digits_value(s@.subrange(start as int, i as int)),
        decreases s.len() - i,
    {
        let c = s[i];
        if !('0' <= c && c <= '9') {
            proof {
                let k: int = i - start;
                assert(d[k] == c);
                assert(!('0' <= d[k] && d[k] <= '9'));
                assert(0 <= k < d.len());
                assert(!all_digits(d));
            }
            return None;
        }
        let digit: usize = ((c as u32) - 48) as usize;
        assert(s@.subrange(start as int, i + 1).drop_last() =~= s@.subrange(start as int, i as int));
        assert(digits_value(s@.subrange(start as int, i + 1)) == v * 10 + digit);
        if v > (usize::MAX - digit) / 10 {
            proof {
                lemma_digits_value_prefix(s@.subrange(start as int, s.len() as int), i + 1 - start);
                assert(s@.subrange(start as int, s.len() as int).take(i + 1 - start) =~= s@.subrange(start as int, i + 1));
                assert(s@.subrange(start as int, s.len() as int) =~= d);
                assert(v * 10 + digit > usize::MAX) by (nonlinear_arith)
                    requires
                        v > (usize::MAX - digit) / 10,
                        digit < 10,
                ;
            }
            return None;
        }
        v = v * 10 + digit;
        i = i + 1;
    }
    assert(s@.subrange(start as int, s.len() as int) =~= d);
    Some(v)
}

/// A prefix of the digits is worth no more than all of them.
pub proof fn lemma_digits_value_prefix(d: Seq<char>, n: int)
    requires
        0 <= n <= d.len(),
    ensures
        digits_value(d.take(n)) <= digits_value(d),
    decreases d.len() - n,
{
    if n < d.len() {
        lemma_digits_value_prefix(d, n + 1);
        assert(d.take(n + 1).drop_last() =~= d.take(n));
    } else {
        assert(d.take(n) =~= d);
    }
}

/// The export settings of the one-value-per-line legacy settings text: output path, whether
/// to show the terminal, and the worker count; anything missing keeps its default.
pub open spec fn legacy_text_settings(content: Seq<char>) -> (Seq<char>, bool, nat) {
    let ls = lines(content);
    let output = if ls.len() > 0 && ls[0].len() > 0 {
        ls[0]
    } else {
        Seq::empty()
    };
    let show = if ls.len() >= 2 {
        ls[1] == "true"@
    } else {
        true
    };
    let parallel = if ls.len() >= 3 {
        match parsed_usize(trim(ls[2])) {
            Some(v) => if v >= 1 {
                v
            } else {
                4
            },
            None => 4,
        }
    } else {
        4
    };
    (output, show, parallel)
}

/// `e` with the legacy overwrite switch folded into the per-asset switches.
pub open spec fn normalized_export(e: ExportConfig) -> ExportConfig {
    ExportConfig {
        overwrite_symbol: e.overwrite_symbol || e.legacy_overwrite == Some(true),
        overwrite_footprint: e.overwrite_footprint || e.legacy_overwrite == Some(true),
        overwrite_model_3d: e.overwrite_model_3d || e.legacy_overwrite == Some(true),
        legacy_overwrite: None,
        ..e
    }
}

/// `e` is what the legacy settings text `content` gives (the defaults when there is none).
pub open spec fn legacy_export(content: Option<Seq<char>>, e: ExportConfig) -> bool {
    match content {
        None => export_config_is_default(e),
        Some(c) => {
            let (o, s, p) = legacy_text_settings(c);
            &&& e.output_path@ == o
            &&& e.show_terminal == s
            &&& e.parallel == p
            &&& e.path_mode == ExportPathMode::Auto
            &&& e.export_symbol && e.export_footprint && e.export_model_3d
            &&& !e.overwrite_symbol && !e.overwrite_footprint && !e.overwrite_model_3d
            &&& e.symbol_fill_color is None
            &&& e.legacy_overwrite is None
        },
    }
}

impl ExportConfig {
    /// Folds the legacy overwrite switch into the per-asset switches and drops it.
    pub fn normalize_legacy(&mut self)
        ensures
            *final(self) == normalized_export(*old(self)),
    {
        if self.legacy_overwrite == Some(true) {
            self.overwrite_symbol = true;
            self.overwrite_footprint = true;
            self.overwrite_model_3d = true;
        }
        self.legacy_overwrite = None;
    }

    /// The export settings of the legacy settings text, or the defaults when there is none.
    pub fn load_legacy(content: Option<&str>) -> (r: Self)
        ensures
            legacy_export(
                match content {
                    Some(c) => Some(c@),
                    None => None,
                },
                r,
            ),
    {
        let c = match content {
            None => return ExportConfig::default(),
            Some(c) => c,
        };
        let cs = chars_of(c);
        let ls = lines_of(cs.as_slice());
        let output_path = if ls.len() > 0 && ls[0].len() > 0 {
            string_from(ls[0].as_slice())
        } else {
            String::new()
        };
        let show_terminal = if ls.len() >= 2 {
            let s = string_from(ls[1].as_slice());
            str_eq(s.as_str(), "true")
        } else {
            true
        };
        let parallel: usize = if ls.len() >= 3 {
            let t = trim_chars(ls[2].as_slice());
            match parse_usize(t.as_slice()) {
                Some(v) => if v >= 1 {
                    v
                } else {
                    4
                },
                None => 4,
            }
        } else {
            4
        };
        ExportConfig {
            output_path,
            show_terminal,
            parallel,
            path_mode: ExportPathMode::Auto,
            export_symbol: true,
            export_footprint: true,
            export_model_3d: true,
            overwrite_symbol: false,
            overwrite_footprint: false,
            overwrite_model_3d: false,
            symbol_fill_color: None,
            legacy_overwrite: None,
        }
    }
}

/// All desktop settings.
#[derive(Clone, Debug, PartialEq, Eq)]
pub struct AppConfig {
    pub export: ExportConfig,
    pub monitor: MonitorConfig,
}

impl Default for AppConfig {
    fn default() -> (r: Self)
        ensures
            export_config_is_default(r.export),
            monitor_config_is_default(r.monitor),
    {
        AppConfig { export: ExportConfig::default(), monitor: MonitorConfig::default() }
    }
}

impl AppConfig {
    /// The settings with the legacy overwrite switch folded in.
    pub fn normalize(self) -> (r: Self)
        ensures
            r == (AppConfig { export: normalized_export(self.export), monitor: self.monitor }),
    {
        let mut c = self;
        c.export.normalize_legacy();
        c
    }

    /// The settings in use, from what could be read: the settings file, else the legacy
    /// settings file beside the program, else the defaults with the legacy text's export
    /// settings. Each settings file counts only if it parsed.
    pub fn from_sources(primary: Option<AppConfig>, legacy: Option<AppConfig>, legacy_text: Option<&str>) -> (r: Self)
        ensures
            primary is Some ==> r == (AppConfig {
                export: normalized_export(primary->0.export),
                monitor: primary->0.monitor,
            }),
            primary is None && legacy is Some ==> r == (AppConfig {
                export: normalized_export(legacy->0.export),
                monitor: legacy->0.monitor,
            }),
            primary is None && legacy is None ==> monitor_config_is_default(r.monitor) && legacy_export(
                match legacy_text {
                    Some(c) => Some(c@),
                    None => None,
                },
                r.export,
            ),
    {
        match primary {
            Some(c) => c.normalize(),
            None => match legacy {
                Some(c) => c.normalize(),
                None => AppConfig { export: ExportConfig::load_legacy(legacy_text), monitor: MonitorConfig::default() },
            },
        }
    }
}

} // verus!
