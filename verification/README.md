# linc

LINC is the link and binary evidence layer for C interop: it records what native
inputs a header package declares, inventories the symbols of native artifacts,
resolves link plans, measures ABI layouts through a compiled probe, and validates
declarations against compiled reality.

The library under `src/` is written in Verus; every function carries a contract
that Verus proves.

- `c_ast`, `extract`: the declarations of a parsed C translation unit, as IR items
  and diagnostics.
- `ir`, `diagnostics`, `error`: the intermediate representation and its errors.
- `intake`: the frontend-neutral source contract and its adapters to and from the IR.
- `raw_headers`, `line_markers`, `preprocess`: header-scan configuration, macro
  capture, preprocessor line markers and origin filtering, and package assembly.
- `probe`: the layout probe program and the parsing of its output.
- `symbols`, `object_file`: symbol inventories of object files and archives, read
  through the `object` crate.
- `link_plan`, `validate`, `analysis`: link plans, validation reports and the
  analysis package.
- `codegen_rust`: Rust FFI declarations for a package.
- `cli`: the vocabulary of the command-line tool.

`app/` is the command-line tool: it reads files, runs the compiler, preprocessor
and `readelf`, and prints the evidence as JSON through serializable copies of the
library's types.
