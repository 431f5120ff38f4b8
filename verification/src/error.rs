//! The errors of the conversion pipeline.
use vstd::prelude::*;

verus! {

/// A failure while reading component data from EasyEDA.
#[derive(Debug, Clone, PartialEq, Eq)]
pub enum EasyedaError {
    ApiRequest(String),
    InvalidLcscId(String),
    ComponentNotFound(String),
    JsonParse(String),
    InvalidData(String),
}

/// A failure while writing KiCad files.
#[derive(Debug, Clone, PartialEq, Eq)]
pub enum KicadError {
    SymbolExport(String),
    FootprintExport(String),
    ModelExport(String),
    InvalidVersion,
    Io(String),
}

/// A failure while converting EasyEDA geometry.
#[derive(Debug, Clone, PartialEq, Eq)]
pub enum ConversionError {
    InvalidCoordinate(String),
    InvalidUnit(String),
    SvgParse(String),
    ArcConversion(String),
}

/// Any failure of a conversion run, with what it carries as plain text.
#[derive(Debug, Clone, PartialEq, Eq)]
pub enum AppError {
    Easyeda(EasyedaError),
    Kicad(KicadError),
    Conversion(ConversionError),
    IoContext { action: String, path: String, message: String },
    Regex(String),
    Other(String),
}

/// The message of an EasyEDA error, as it reads to the user.
pub open spec fn easyeda_error_text(e: EasyedaError) -> Seq<char> {
    match e {
        EasyedaError::ApiRequest(m) => "API request failed: "@ + m@,
        EasyedaError::InvalidLcscId(m) => "Invalid LCSC ID format: "@ + m@,
        EasyedaError::ComponentNotFound(m) => "Component not found: "@ + m@,
        EasyedaError::JsonParse(m) => "Failed to parse JSON response: "@ + m@,
        EasyedaError::InvalidData(m) => "Invalid component data: "@ + m@,
    }
}

/// The message of a KiCad error, as it reads to the user.
pub open spec fn kicad_error_text(e: KicadError) -> Seq<char> {
    match e {
        KicadError::SymbolExport(m) => "Failed to export symbol: "@ + m@,
        KicadError::FootprintExport(m) => "Failed to export footprint: "@ + m@,
        KicadError::ModelExport(m) => "Failed to export 3D model: "@ + m@,
        KicadError::InvalidVersion => "Invalid KiCad version"@,
        KicadError::Io(m) => "IO error: "@ + m@,
    }
}

/// The message of a conversion error, as it reads to the user.
pub open spec fn conversion_error_text(e: ConversionError) -> Seq<char> {
    match e {
        ConversionError::InvalidCoordinate(m) => "Invalid coordinate: "@ + m@,
        ConversionError::InvalidUnit(m) => "Invalid unit conversion: "@ + m@,
        ConversionError::SvgParse(m) => "SVG path parse error: "@ + m@,
        ConversionError::ArcConversion(m) => "Arc conversion failed: "@ + m@,
    }
}

/// The message of an error, as it reads to the user.
pub open spec fn error_text(e: AppError) -> Seq<char> {
    match e {
        AppError::Easyeda(x) => easyeda_error_text(x),
        AppError::Kicad(k) => kicad_error_text(k),
        AppError::Conversion(c) => conversion_error_text(c),
        AppError::IoContext { action, path, message } => "I/O error while "@ + action@ + " "@ + path@
            + ": "@ + message@,
        AppError::Regex(m) => "Regex error: "@ + m@,
        AppError::Other(m) => m@,
    }
}

fn joined(a: &str, b: &str) -> (r: String)
    ensures
        r@ == a@ + b@,
{
    let mut v: Vec<char> = Vec::new();
    crate::text::extend_str(&mut v, a);
    crate::text::extend_str(&mut v, b);
    crate::text::string_from(v.as_slice())
}

impl AppError {
    /// The message of this error, as it reads to the user.
    pub fn message(&self) -> (r: String)
        ensures
            r@ == error_text(*self),
    {
        match self {
            AppError::Easyeda(x) => match x {
                EasyedaError::ApiRequest(m) => joined("API request failed: ", m.as_str()),
                EasyedaError::InvalidLcscId(m) => joined("Invalid LCSC ID format: ", m.as_str()),
                EasyedaError::ComponentNotFound(m) => joined("Component not found: ", m.as_str()),
                EasyedaError::JsonParse(m) => joined("Failed to parse JSON response: ", m.as_str()),
                EasyedaError::InvalidData(m) => joined("Invalid component data: ", m.as_str()),
            },
            AppError::Kicad(k) => match k {
                KicadError::SymbolExport(m) => joined("Failed to export symbol: ", m.as_str()),
                KicadError::FootprintExport(m) => joined("Failed to export footprint: ", m.as_str()),
                KicadError::ModelExport(m) => joined("Failed to export 3D model: ", m.as_str()),
                KicadError::InvalidVersion => "Invalid KiCad version".to_owned(),
                KicadError::Io(m) => joined("IO error: ", m.as_str()),
            },
            AppError::Conversion(c) => match c {
                ConversionError::InvalidCoordinate(m) => joined("Invalid coordinate: ", m.as_str()),
                ConversionError::InvalidUnit(m) => joined("Invalid unit conversion: ", m.as_str()),
                ConversionError::SvgParse(m) => joined("SVG path parse error: ", m.as_str()),
                ConversionError::ArcConversion(m) => joined("Arc conversion failed: ", m.as_str()),
            },
            AppError::IoContext { action, path, message } => {
                let mut v: Vec<char> = Vec::new();
                crate::text::extend_str(&mut v, "I/O error while ");
                crate::text::extend_str(&mut v, action.as_str());
                crate::text::extend_str(&mut v, " ");
                crate::text::extend_str(&mut v, path.as_str());
                crate::text::extend_str(&mut v, ": ");
                crate::text::extend_str(&mut v, message.as_str());
                crate::text::string_from(v.as_slice())
            },
            AppError::Regex(m) => joined("Regex error: ", m.as_str()),
            AppError::Other(m) => m.clone(),
        }
    }

    /// The error for a failed file operation: what was being done, on which path, and why.
    pub fn io_context(action: &str, path: &str, message: &str) -> (r: Self)
        ensures
            r matches AppError::IoContext { action: a, path: p, message: m } && a@ == action@
                && p@ == path@ && m@ == message@,
    {
        AppError::IoContext {
            action: action.to_owned(),
            path: path.to_owned(),
            message: message.to_owned(),
        }
    }
}

} // verus!
