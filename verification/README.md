# happyjlc

A verified library for the decisions of an EasyEDA/LCSC to KiCad converter and of its
desktop side (clipboard monitor, export queue, imported-symbol catalog, inventory, BOM
import and deduction). The library decides what a conversion run fetches, writes,
overwrites and skips; the EasyEDA geometry conversion itself (symbol and footprint
shapes, in floating point) is not part of it, and the command line answers symbol and
footprint requests with an error. Functions in `src/` are proved by Verus against their
`requires` / `ensures` contracts, except the small trusted wrappers described below.

## Layout

- `src/` — the library.
  - `checkpoint`, `runner`, `export_options`, `cli`: what a conversion run converts, what a
    resumed batch skips, and the checkpoint file format.
  - `library`, `kicad`, `fill_color`, `sexpr`, `paths`: output paths, the overwrite policy,
    symbol-library editing and KiCad text escaping.
  - `easyeda`: addresses, derived metadata and retry decisions around the EasyEDA service.
  - `library_scan`, `imported_symbols`, `symbol_catalog`, `symbol_edit`: which library
    files a scan reads, listing, renaming and deleting imported symbols.
  - `monitor`, `extract`, `pattern`, `controller`, `controller_ops`, `commands`, `export`,
    `config`, `app_paths`, `tui`: the desktop application's state and decisions.
  - `inventory`, `inventory_sync`, `bom`, `bom_import`, `bom_plan`: stock, allocation,
    BOM import and deduction, and syncing the stock with the symbol libraries.
  - `vendor_import`: merging a vendor's KiCad package into a personal library.
  - `text`, `error`: shared string helpers and the error type.
- `tests/` — tests against the compiled library.
- `app/` — the command line: argument parsing, file system and network access.
  `happyjlc vendor-import <dir>` runs the vendor import; `happyjlc list-symbols <dir>
  [paths...]` lists the parts of the generated and configured libraries.

Calls into `regex`, `csv`, `serde_json`, `chrono` and a few std string and character
functions stand behind small trusted wrappers (`#[verifier::external_body]`), whose doc
comments say what is assumed of them; nothing about their bodies is proved.
