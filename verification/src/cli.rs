//! The converter's command line: which components, which assets, and how the exit code
//! follows the run.
use vstd::prelude::*;
use crate::error::{AppError, EasyedaError};
use crate::export_options::{
    ComponentConversionRequest, FootprintExportOptions, Model3dExportOptions, RunOptions,
    RunRequest, SymbolExportOptions,
};
use crate::fill_color::{SymbolFillColor, parsed_color};
use crate::monitor::distinct_in_order;
use crate::pattern::{Pattern, RegexMatch, match_view, regex_compiles, regex_matches};
use crate::text::starts_with;

verus! {

/// The process exit code after a run: 0 when no component failed, 1 otherwise.
pub fn exit_code_for_failures(failed: usize) -> (r: i32)
    ensures
        r == (if failed == 0 {
            0i32
        } else {
            1i32
        }),
{
    if failed == 0 {
        0
    } else {
        1
    }
}

/// The options of the command line.
#[derive(Debug, Clone)]
pub struct Cli {
    /// One LCSC component id (`--lcsc-id`).
    pub lcsc_id: Option<String>,
    /// A file of LCSC ids (`--batch`).
    pub batch: Option<String>,
    pub symbol: bool,
    pub footprint: bool,
    pub model_3d: bool,
    pub full: bool,
    pub output: String,
    pub overwrite: bool,
    pub overwrite_symbol: bool,
    pub overwrite_footprint: bool,
    pub overwrite_model_3d: bool,
    pub project_relative: bool,
    pub symbol_fill_color: Option<String>,
    pub debug: bool,
    pub continue_on_error: bool,
    pub parallel: usize,
}

/// A valid single id: it starts with `C` and has something after it.
pub open spec fn valid_lcsc_id(id: Seq<char>) -> bool {
    starts_with(id, seq!['C']) && id.len() >= 2
}

/// Whether the command line selects an asset to convert.
pub open spec fn selects_asset(c: Cli) -> bool {
    c.symbol || c.footprint || c.model_3d || c.full
}

/// Whether the command line is complete and well formed.
pub open spec fn cli_valid(c: Cli) -> bool {
    &&& (c.lcsc_id is Some || c.batch is Some)
    &&& (c.lcsc_id matches Some(id) ==> valid_lcsc_id(id@))
    &&& selects_asset(c)
    &&& (c.symbol_fill_color matches Some(v) ==> parsed_color(v@) is Some)
}

/// The error `validate_cli` gives for an invalid command line: the first rule it breaks.
pub open spec fn cli_error(c: Cli, e: AppError) -> bool {
    if c.lcsc_id is None && c.batch is None {
        e matches AppError::Other(m) && m@ == "Either --lcsc-id or --batch must be specified"@
    } else if c.lcsc_id matches Some(id) && !valid_lcsc_id(id@) {
        e matches AppError::Easyeda(EasyedaError::InvalidLcscId(v)) && v@ == c.lcsc_id->Some_0@
    } else if !selects_asset(c) {
        e matches AppError::Other(m) && m@
            == "At least one conversion option must be specified (--symbol, --footprint, --3d, or --full)"@
    } else {
        e matches AppError::Other(m) && m@ == "Invalid symbol fill color '"@
            + c.symbol_fill_color->Some_0@ + "'. Expected #RRGGBB or #RRGGBBAA"@
    }
}

/// Checks the command line: an id source, a well-formed single id, an asset, and a valid
/// fill colour when one is given.
pub fn validate_cli(cli: &Cli) -> (r: Result<(), AppError>)
    ensures
        r is Ok <==> cli_valid(*cli),
        r matches Err(e) ==> cli_error(*cli, e),
{
    if cli.lcsc_id.is_none() && cli.batch.is_none() {
        return Err(AppError::Other("Either --lcsc-id or --batch must be specified".to_owned()));
    }
    if let Some(id) = &cli.lcsc_id {
        let cs = crate::text::chars_of(id.as_str());
        let c = vec!['C'];
        assert(c@ =~= seq!['C']);
        if !crate::text::starts_with_chars(cs.as_slice(), c.as_slice()) || cs.len() < 2 {
            return Err(AppError::Easyeda(EasyedaError::InvalidLcscId(id.clone())));
        }
    }
    if !cli.symbol && !cli.footprint && !cli.model_3d && !cli.full {
        return Err(
            AppError::Other(
                "At least one conversion option must be specified (--symbol, --footprint, --3d, or --full)".to_owned(),
            ),
        );
    }
    if let Some(value) = &cli.symbol_fill_color {
        match SymbolFillColor::parse(value.as_str()) {
            Ok(_) => {},
            Err(e) => return Err(e),
        }
    }
    Ok(())
}

/// The pattern of an LCSC id in a batch file.
pub open spec fn batch_id_pattern() -> Seq<char> {
    "C\\d+"@
}

pub open spec fn match_texts(ms: Seq<(Seq<char>, Option<char>, Option<char>)>) -> Seq<Seq<char>> {
    ms.map_values(|m: (Seq<char>, Option<char>, Option<char>)| m.0)
}

/// The ids of a batch file: each match of `C\d+`, once, in order of first appearance.
pub open spec fn batch_ids(content: Seq<char>) -> Seq<Seq<char>> {
    distinct_in_order(match_texts(regex_matches(batch_id_pattern(), content)))
}

pub open spec fn string_views(v: Seq<String>) -> Seq<Seq<char>> {
    v.map_values(|s: String| s@)
}

/// The ids `ids` once each, in order of first appearance.
pub fn dedupe_lcsc_ids(ids: Vec<String>) -> (r: Vec<String>)
    ensures
        string_views(r@) == distinct_in_order(string_views(ids@)),
{
    let ghost iv = string_views(ids@);
    let mut out: Vec<String> = Vec::new();
    let mut k: usize = 0;
    while k < ids.len()
        invariant
            k <= ids.len(),
            iv == string_views(ids@),
            string_views(out@) == distinct_in_order(iv.take(k as int)),
        decreases ids.len() - k,
    {
        let id = &ids[k];
        assert(iv.take(k + 1).drop_last() =~= iv.take(k as int));
        let ghost prev = string_views(out@);
        if !crate::monitor::contains_string(&out, id.as_str()) {
            out.push(id.clone());
            assert(string_views(out@) =~= prev.push(id@));
        }
        k = k + 1;
    }
    assert(iv.take(ids.len() as int) =~= iv);
    out
}

fn match_strings(ms: Vec<RegexMatch>) -> (r: Vec<String>)
    ensures
        string_views(r@) == match_texts(ms@.map_values(|m: RegexMatch| match_view(m))),
{
    let ghost mv = ms@.map_values(|m: RegexMatch| match_view(m));
    let mut out: Vec<String> = Vec::new();
    let mut k: usize = 0;
    while k < ms.len()
        invariant
            k <= ms.len(),
            mv == ms@.map_values(|m: RegexMatch| match_view(m)),
            string_views(out@) == match_texts(mv).take(k as int),
        decreases ms.len() - k,
    {
        let ghost prev = string_views(out@);
        out.push(ms[k].text.clone());
        assert(string_views(out@) =~= prev.push(ms@[k as int].text@));
        assert(match_texts(mv).take(k + 1) =~= prev.push(ms@[k as int].text@));
        k = k + 1;
    }
    assert(match_texts(mv).take(ms.len() as int) =~= match_texts(mv));
    out
}

/// The ids the run is for: the single id, or those of the batch file whose text is
/// `batch_content`. Refused when the id pattern does not compile (whether it does is the
/// `regex` crate's to say), or when the batch file holds no id.
pub fn resolve_lcsc_ids(cli: &Cli, batch_content: Option<&str>) -> (r: Result<Vec<String>, AppError>)
    requires
        cli.lcsc_id is None && cli.batch is Some ==> batch_content is Some,
    ensures
        match cli.lcsc_id {
            Some(id) => r is Ok && string_views(r->Ok_0@) == seq![id@],
            None => match cli.batch {
                Some(_) => {
                    let ids = batch_ids(batch_content->Some_0@);
                    if !regex_compiles(batch_id_pattern()) {
                        r matches Err(e) && e is Regex
                    } else if ids.len() == 0 {
                        r matches Err(AppError::Other(m)) && m@ == "No valid LCSC IDs found in batch file"@
                    } else {
                        r is Ok && string_views(r->Ok_0@) == ids
                    }
                },
                None => r matches Err(AppError::Other(m)) && m@ == "No LCSC ID source specified"@,
            },
        },
{
    if let Some(id) = &cli.lcsc_id {
        let v = vec![id.clone()];
        assert(string_views(v@) =~= seq![id@]);
        return Ok(v);
    }
    if cli.batch.is_some() {
        let content = match batch_content {
            Some(c) => c,
            None => return Err(AppError::Other("No LCSC ID source specified".to_owned())),
        };
        let p = match Pattern::compile("C\\d+") {
            Some(p) => p,
            None => return Err(AppError::Regex("the LCSC id pattern does not compile".to_owned())),
        };
        let ms = p.find_matches(content);
        let texts = match_strings(ms);
        let ids = dedupe_lcsc_ids(texts);
        if ids.len() == 0 {
            return Err(AppError::Other("No valid LCSC IDs found in batch file".to_owned()));
        }
        return Ok(ids);
    }
    Err(AppError::Other("No LCSC ID source specified".to_owned()))
}

/// The component request a valid command line describes: the selected assets (all with
/// `--full`), the fill colour, and the overwrite flags (all with `--overwrite`).
pub open spec fn cli_component(c: Cli, fill: Option<SymbolFillColor>) -> ComponentConversionRequest {
    ComponentConversionRequest {
        convert_symbol: c.symbol || c.full,
        convert_footprint: c.footprint || c.full,
        convert_model_3d: c.model_3d || c.full,
        symbol: SymbolExportOptions { symbol_fill_color: fill, overwrite: c.overwrite || c.overwrite_symbol },
        footprint: FootprintExportOptions {
            include_3d_model: c.model_3d || c.full,
            project_relative_3d: c.project_relative,
            overwrite: c.overwrite || c.overwrite_footprint,
        },
        model_3d: Model3dExportOptions { overwrite: c.overwrite || c.overwrite_model_3d },
    }
}

/// The fill colour a command line gives, read as `SymbolFillColor::parse` reads it.
pub open spec fn cli_fill(c: Cli) -> Option<SymbolFillColor> {
    match c.symbol_fill_color {
        Some(v) => parsed_color(v@),
        None => None,
    }
}

impl Cli {
    /// The run this command line asks for; `batch_content` is the text of the batch file
    /// when there is one. Refused as `validate_cli` and `resolve_lcsc_ids` refuse it, or
    /// when no parallel worker is allowed.
    pub fn into_request(self, batch_content: Option<&str>) -> (r: Result<RunRequest, AppError>)
        requires
            self.lcsc_id is None && self.batch is Some ==> batch_content is Some,
        ensures
            !cli_valid(self) ==> (r matches Err(e) && cli_error(self, e)),
            cli_valid(self) && self.lcsc_id is Some ==> match r {
                Ok(q) => self.parallel > 0 && string_views(q.lcsc_ids@) == seq![self.lcsc_id->Some_0@],
                Err(e) => self.parallel == 0 && (e matches AppError::Other(m) && m@
                    == "Parallel worker count must be greater than zero"@),
            },
            cli_valid(self) && self.lcsc_id is None ==> {
                let ids = batch_ids(batch_content->Some_0@);
                if !regex_compiles(batch_id_pattern()) {
                    r matches Err(e) && e is Regex
                } else if ids.len() == 0 {
                    r matches Err(AppError::Other(m)) && m@ == "No valid LCSC IDs found in batch file"@
                } else if self.parallel == 0 {
                    r matches Err(AppError::Other(m)) && m@ == "Parallel worker count must be greater than zero"@
                } else {
                    r matches Ok(q) && string_views(q.lcsc_ids@) == ids
                }
            },
            r matches Ok(q) ==> q.component == cli_component(self, cli_fill(self)) && q.run
                == (RunOptions {
                output: self.output,
                continue_on_error: self.continue_on_error,
                parallel: self.parallel,
            }),
    {
        match validate_cli(&self) {
            Ok(()) => {},
            Err(e) => return Err(e),
        }
        let lcsc_ids = match resolve_lcsc_ids(&self, batch_content) {
            Ok(ids) => ids,
            Err(e) => return Err(e),
        };
        assert(lcsc_ids@.len() == string_views(lcsc_ids@).len());
        let convert_symbol = self.symbol || self.full;
        let convert_footprint = self.footprint || self.full;
        let convert_model_3d = self.model_3d || self.full;
        let fill = match &self.symbol_fill_color {
            Some(v) => match SymbolFillColor::parse(v.as_str()) {
                Ok(c) => Some(c),
                Err(e) => return Err(e),
            },
            None => None,
        };
        let component = match ComponentConversionRequest::new(
            convert_symbol,
            convert_footprint,
            convert_model_3d,
            SymbolExportOptions::new(fill, self.overwrite || self.overwrite_symbol),
            FootprintExportOptions::new(
                convert_model_3d,
                self.project_relative,
                self.overwrite || self.overwrite_footprint,
            ),
            Model3dExportOptions::new(self.overwrite || self.overwrite_model_3d),
        ) {
            Ok(c) => c,
            Err(e) => return Err(e),
        };
        RunRequest::new(
            lcsc_ids,
            RunOptions {
                output: self.output,
                continue_on_error: self.continue_on_error,
                parallel: self.parallel,
            },
            component,
        )
    }
}

} // verus!
