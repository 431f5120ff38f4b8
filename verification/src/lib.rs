use vstd::prelude::*;

pub mod checkpoint;
pub mod text;
pub mod paths;
pub mod sexpr;
pub mod imported_symbols;
pub mod symbol_edit;
pub mod symbol_catalog;
pub mod library_scan;
pub mod kicad;
pub mod error;
pub mod fill_color;
pub mod export_options;
pub mod runner;
pub mod pattern;
pub mod library;
pub mod extract;
pub mod config;
pub mod app_paths;
pub mod monitor;
pub mod controller;
pub mod export;
pub mod inventory;
pub mod tui;
pub mod vendor_import;
pub mod cli;
pub mod bom;
pub mod bom_import;
pub mod bom_plan;
pub mod easyeda;
pub mod inventory_sync;
pub mod commands;
pub mod controller_ops;

verus! {

} // verus!
