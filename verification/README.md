# wasm_parser

Reads a WebAssembly binary (a module, or a component with the modules it
nests) into a plain data model: the list of sections with their byte ranges,
the function types, the imported functions, tables and memories, the defined
functions with their locals and a nested `block`/`loop`/`if` instruction
tree, the globals with their initializers, the memories, the exports, the
active element segments and the names of the `name` custom section.
`wasmparser` splits the binary into payloads and decodes the numbers,
names, types, section items and operator offsets; the library walks the
items of each section, reads each operator's immediates field by field
through `wasmparser`'s readers, and maps opcodes to the data model.

Layout:

- `src/wasm.rs` – the calls into `wasmparser`, each reading one item at a
  position of the binary and handing back plain values;
- `src/instr.rs` – instructions: decoding each operator, and the frame
  stack that rebuilds the nesting of a flat operator stream;
- `src/nesting.rs` – what the frame stack guarantees of the trees it builds;
- `src/module.rs` – the section readers and the walk over all payloads;
- `src/laws.rs` – what holds of every parsed module;
- `src/model.rs`, `src/valtype.rs`, `src/text.rs`, `src/error.rs` – the
  data model, value type names, decimal names and errors;
- `app/` – the JavaScript entry points (`parseWasmModule`, which hands the
  module over as JSON, and `getInitialMemoryPages`).
