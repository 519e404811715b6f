# swcify

Shopify's custom JavaScript transforms, run inside the swc compiler and
exposed to Node.js:

- **async**: a call of `createAsyncComponent` and its kin, imported from
  one of the async packages, whose options load a module with
  `import("path")` gets `id: () => require.resolveWeak("path")`;
- **i18n**: the one argument-less `useI18n()` / `withI18n()` of a component
  with a `translations` directory gets the component's id, its fallback
  translations and a loader for the others, in one of four modes;
- **web worker**: `createWorkerFactory(() => import("./worker"))` becomes a
  webpack loader import of the worker.

## Layout

- `src/` is the library, written in Verus and verified. The transforms work
  on a plain syntax tree (`ast.rs`) through one shared walk (`fold.rs`);
  each module states what its transform does as contracts over spec
  functions, and proves the laws that hold of it (idempotence, block
  scoping, fresh worker identifiers, ...). `i18n_laws.rs` holds the proof
  that the i18n transform leaves its own output unchanged.
- `tests/` exercises the library on concrete trees.
- `app/` is the Node.js addon: it converts between swc's tree and the
  library's, reads the translations directory, runs swc's compiler and
  exposes `transform` and `transformSync`.
