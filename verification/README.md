# larql

Verified core of the larql GGUF tools.

- `src/` is verified with Verus: the GGUF header walk (`gguf`, `inspect`,
  `invert`), the byte size tables, the planning of row and bulk ablation
  (`ablate`, `names`, `patch`), the inversion of Q8_0 block scales
  (`invert`), the loading plan of split models (`split`), the integer side of
  streaming vindex extraction (`vindex`), and properties that span them
  (`laws`).
- `app/` is the command-line front end: file access, JSON, floating point,
  and the parts that depend on the larql workspace crates.
- `tests/` runs the library on concrete inputs.
