# portbay_swc_plugin_loc

Stamps JSX opening elements with the place they were written:
`data-pb-loc="<file>:<line>:<col>"` on host elements and `data-pb-comp` on
component call sites, where `<file>` is the project-root-relative POSIX path.

- `src/` is the verified library (Verus): the root-relative path
  (`relpath.rs`, with its laws in `path_laws.rs`), the stamping rules
  (`stamp.rs`), the per-file plan and warning bookkeeping (`plugin.rs`), and the
  on/off switch and config (`lib.rs`).
- `app/` is the SWC wasm plugin around it: config decoding with serde, the AST
  walk, the source-map lookup and the build warnings.
- `tests/` runs the library on concrete inputs.
