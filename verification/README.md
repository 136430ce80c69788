# espm

`espm` is a package manager for ECMAScript modules. It keeps dependencies in
`espm.json` import maps (`jsr:`, `npm:`, `file:` and `http(s)://`
specifiers), installs them into `node_modules`, records what it resolved in
`espm-lock.json`, and publishes packages to JSR or npm.

## Layout

- `src/` is the library, verified with Verus. Every decision of the program
  lives here with its contract: specifier parsing, package keys and ids,
  import-map edits (`add`, `remove`, `update`), version selection, the install
  queue and its lockfile, what each install or download step does, manifest
  reading from JSON text and gzipped tarballs, and publish planning.
  `src/laws.rs` states the properties that relate several operations.
- `app/` is the command-line program around it: argument parsing, the file
  system, HTTP requests, and the loop of an install run. It asks the library
  what to do and carries it out.
- `tests/` exercises the library on concrete values.

The configuration and the registry metadata are handed to the library as
lists of key-value pairs, read by the program from JSON objects. The library
states what such a list means when each key occurs once: `ImportMap::wf` and
`EspmJson::wf` for import maps (which its configuration edits require and
keep), and `wf` of `JsrNpmRegistryResponse` and `NPMRegistryResponse` for
registry metadata, under which a lookup does not depend on where an entry
stands (`lemma_index_of_unique_key`, `lemma_latest_tag_of_unique_keys`).
