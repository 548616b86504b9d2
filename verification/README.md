# tauri_helper (verified core)

Command collection for Tauri workspaces: a build script scans each workspace
member's sources for `#[tauri::command]` functions and writes two lists of
command paths per crate, `{crate}.txt` with all of them and
`{crate}_specta.txt` with those that also carry `#[specta::specta]`; the
command macros read those lists back, check that each entry is a Rust path,
and hand them to `tauri::generate_handler!` /
`tauri_specta::collect_commands!`.

- `src/` is the verified library: paths as component sequences (`path`),
  text operations (`text`), the reading of Rust sources through `syn`
  (`rust_source`), the scan of a crate's files (`scan`), the written lists
  (`commands`), reading them back (`listing`), manifests and options
  (`types`, `workspace`), the `WithLogging` conversions (`logging`), and the
  properties that hold across them (`laws`).
- `app/` is the build-script and macro front end: environment, file system,
  `Cargo.toml` parsing, printing to Cargo and token output.
- `tests/` exercises the library on concrete inputs.
