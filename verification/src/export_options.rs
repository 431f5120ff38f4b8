//! What a conversion run is asked to produce, checked when it is built.
use vstd::prelude::*;
use crate::checkpoint::CompletedAssets;
use crate::error::AppError;
use crate::fill_color::SymbolFillColor;

verus! {

/// Options for exported symbols.
#[derive(Debug, Clone, Copy, PartialEq, Eq)]
pub struct SymbolExportOptions {
    pub symbol_fill_color: Option<SymbolFillColor>,
    pub overwrite: bool,
}

impl SymbolExportOptions {
    pub fn new(symbol_fill_color: Option<SymbolFillColor>, overwrite: bool) -> (r: Self)
        ensures
            r.symbol_fill_color == symbol_fill_color,
            r.overwrite == overwrite,
    {
        SymbolExportOptions { symbol_fill_color, overwrite }
    }
}

/// Options for exported footprints.
#[derive(Debug, Clone, Copy, PartialEq, Eq)]
pub struct FootprintExportOptions {
    pub include_3d_model: bool,
    pub project_relative_3d: bool,
    pub overwrite: bool,
}

impl FootprintExportOptions {
    pub fn new(include_3d_model: bool, project_relative_3d: bool, overwrite: bool) -> (r: Self)
        ensures
            r.include_3d_model == include_3d_model,
            r.project_relative_3d == project_relative_3d,
            r.overwrite == overwrite,
    {
        FootprintExportOptions { include_3d_model, project_relative_3d, overwrite }
    }
}

/// Options for exported 3D models.
#[derive(Debug, Clone, Copy, PartialEq, Eq)]
pub struct Model3dExportOptions {
    pub overwrite: bool,
}

impl Model3dExportOptions {
    pub fn new(overwrite: bool) -> (r: Self)
        ensures
            r.overwrite == overwrite,
    {
        Model3dExportOptions { overwrite }
    }
}

/// Which assets to produce for each component, and how.
#[derive(Debug, Clone, Copy, PartialEq, Eq)]
pub struct ComponentConversionRequest {
    pub convert_symbol: bool,
    pub convert_footprint: bool,
    pub convert_model_3d: bool,
    pub symbol: SymbolExportOptions,
    pub footprint: FootprintExportOptions,
    pub model_3d: Model3dExportOptions,
}

pub open spec fn overwrites_any(c: ComponentConversionRequest) -> bool {
    (c.convert_symbol && c.symbol.overwrite) || (c.convert_footprint && c.footprint.overwrite) || (
    c.convert_model_3d && c.model_3d.overwrite)
}

impl ComponentConversionRequest {
    /// A request for the selected assets; refused when none is selected.
    pub fn new(
        convert_symbol: bool,
        convert_footprint: bool,
        convert_model_3d: bool,
        symbol: SymbolExportOptions,
        footprint: FootprintExportOptions,
        model_3d: Model3dExportOptions,
    ) -> (r: Result<Self, AppError>)
        ensures
            match r {
                Ok(c) => (convert_symbol || convert_footprint || convert_model_3d) && c
                    == (ComponentConversionRequest {
                    convert_symbol,
                    convert_footprint,
                    convert_model_3d,
                    symbol,
                    footprint,
                    model_3d,
                }),
                Err(e) => !(convert_symbol || convert_footprint || convert_model_3d) && (e matches AppError::Other(
                    m,
                ) && m@ == "At least one conversion asset must be selected"@),
            },
    {
        if !convert_symbol && !convert_footprint && !convert_model_3d {
            return Err(AppError::Other("At least one conversion asset must be selected".to_owned()));
        }
        Ok(
            ComponentConversionRequest {
                convert_symbol,
                convert_footprint,
                convert_model_3d,
                symbol,
                footprint,
                model_3d,
            },
        )
    }

    /// Whether some selected asset may replace existing files.
    pub fn overwrite_any(&self) -> (r: bool)
        ensures
            r == overwrites_any(*self),
    {
        (self.convert_symbol && self.symbol.overwrite) || (self.convert_footprint
            && self.footprint.overwrite) || (self.convert_model_3d && self.model_3d.overwrite)
    }

    /// The assets that a finished component records in the checkpoint.
    pub fn checkpoint_assets(&self) -> (r: CompletedAssets)
        ensures
            r == (CompletedAssets {
                symbol: self.convert_symbol,
                footprint: self.convert_footprint,
                model_3d: self.convert_model_3d,
            }),
    {
        CompletedAssets {
            symbol: self.convert_symbol,
            footprint: self.convert_footprint,
            model_3d: self.convert_model_3d,
        }
    }
}

/// Where and how a run writes.
#[derive(Debug, Clone, PartialEq, Eq)]
pub struct RunOptions {
    pub output: String,
    pub continue_on_error: bool,
    pub parallel: usize,
}

/// One conversion run: the components, where to write, and what to produce.
#[derive(Debug, Clone, PartialEq, Eq)]
pub struct RunRequest {
    pub lcsc_ids: Vec<String>,
    pub run: RunOptions,
    pub component: ComponentConversionRequest,
}

impl RunRequest {
    /// A run over `lcsc_ids`; refused when there is no component or no worker.
    pub fn new(lcsc_ids: Vec<String>, run: RunOptions, component: ComponentConversionRequest) -> (r: Result<
        Self,
        AppError,
    >)
        ensures
            match r {
                Ok(q) => lcsc_ids@.len() > 0 && run.parallel > 0 && q == (RunRequest {
                    lcsc_ids,
                    run,
                    component,
                }),
                Err(e) => if lcsc_ids@.len() == 0 {
                    e matches AppError::Other(m) && m@ == "No component IDs were provided"@
                } else {
                    run.parallel == 0 && (e matches AppError::Other(m) && m@
                        == "Parallel worker count must be greater than zero"@)
                },
            },
    {
        if lcsc_ids.len() == 0 {
            return Err(AppError::Other("No component IDs were provided".to_owned()));
        }
        if run.parallel == 0 {
            return Err(AppError::Other("Parallel worker count must be greater than zero".to_owned()));
        }
        Ok(RunRequest { lcsc_ids, run, component })
    }
}

} // verus!
