# schemaui

`schemaui` turns a JSON Schema into a keyboard-driven form in the terminal
and writes the document the user saves (JSON, YAML or TOML).

The crate is written in Verus. `src/` is the library, with every function
verified against its contract:

- `refs`, `schema`: resolving `$ref` references, then reading a schema into
  sections of typed fields, each section placed under a root tab with the
  property path it stands for; `oneOf` / `anyOf` become composite fields
  and `additionalProperties` maps become key/value fields;
- `field`, `components`, `form`, `composite`: editing state, key handling,
  focus movement and building the document from the fields;
- `session`: the interactive session's decisions (key routing through the
  key bindings, popups, save, quit, validation results, the status line),
  handed back to the caller as steps to perform;
- `render`: fields and variant selectors laid out as styled lines;
- `entries`: the entry editor that arrays of scalars open in;
- `choice`, `keyvalue`: the values of composite and map fields, whose
  variants and entries are edited in forms of their own (`session`);
- `infer`, `toml_prep`, `format`, `output`: schemas inferred from data,
  preparing values for TOML, choosing formats and destinations;
- `keys`, `popup`, `display`, `svg`, `rich`, `draft`, `pointer`, `label`,
  `json`, `text` and the rest: smaller rules the above build on.

Laws that span several calls (focus round trips, what a read gives back of a
write, quitting twice, keywords reading back as their formats, …) are public
proof functions next to the code they are about.

`app/` is the program around the library: the command line, reading and
writing files, the JSON Schema validator, and the terminal.
