# witgenstein

Generate WIT (WebAssembly Interface Type) definitions from TypeScript
projects and Rust crates, and the Rust glue that turns a crate into a
component.

`src/` is the library, verified with Verus: every function there carries a
contract, and the laws it states are proved, as contracts or as proof
functions. Some hold on a restricted domain, which their `requires` names:
the PascalCase round trip holds for names whose segments are lower-case
letters and digits. Kebab-case idempotence is characterised exactly: a second
pass leaves a result unchanged if and only if every upper-case character left
in it (one without a lower-case form) stands where no hyphen goes; text whose
upper-case letters lower-case to lower-case letters, all ASCII text among it,
always qualifies.

Type discovery, in the `component!` macro and in the crate tools, is stated
as a walk: spec functions (`walk_items`, `rwalk_exports` and the functions
they call) say which names or items are looked up, in which order the
definitions reached are recorded, and, for the crate tools, which warnings
are given; the executable code is proved to record exactly that.

- `wit_common`, `text`: kebab-case names, WIT package ids, character helpers.
- `ts_syntax`, `ts_collect`, `ts_branded`, `ts_mapper`, `ts_types`, `ts_emit`:
  the TypeScript side — the exported declarations of a module, branded
  numeric types, the mapping of TypeScript types to WIT, and the WIT text.
- `ts_project`, `ts_graph`, `ts_parse`, `ts_cli`: finding a project's entry
  point, the module-graph walk (each module parsed with oxc and its imports
  recorded), and the package the tool writes.
- `rs_syntax`, `rs_discover`, `rs_macros_extract`, `rs_macros_wit`,
  `rs_glue`, `rs_glue_gen`: the `component!` macro — type discovery from
  Rust items, the inline WIT, and the glue source.
- `rs_auto`, `rs_resolve`, `rs_wit_map`, `rs_emit`: the crate tools — export
  discovery, resolution through the rustdoc index, and the WIT package.
- `hashtools`, `textkit`: the sample components' logic.
- `diagnostic`, `cli`: diagnostics and command-line arguments as plain values.

`app/` holds the command-line front ends: argument parsing, file and process
I/O, module resolution, turning oxc and syn syntax trees and rustdoc JSON
into the library's models, and rendering with wit-encoder. It hands the library plain values and takes plain values back.

`tests/` exercises the library on concrete inputs.
