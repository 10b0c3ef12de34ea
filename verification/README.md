# hoover3

The decision logic of the hoover3 document processing system, verified
with Verus: identifiers and schema types, directory scans, file hashing
plans, blob processing plans, text paragraph splitting, metadata rows,
write batching, workflow status trees and the steps a workflow takes
around the work it hands to the workflow engine.

- `src/` is the verified library. Each module states its behaviour in
  `requires`/`ensures` contracts; calls into outside crates (regex, the
  hash functions, text and path helpers, stable hashing) go through small
  trusted wrappers whose contracts are documented next to them.
- `tests/` runs the library on concrete values.
- `app/` is the command line around the library: reading directories and
  files, logging, serialization and the worker front end.
