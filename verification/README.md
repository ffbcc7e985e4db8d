# wrkflw_parser

A verified library for reading GitLab CI pipelines and checking workflow files
against JSON schemas. The functions in `src/` carry contracts that Verus proves,
except the small wrappers around `serde_yaml`, `serde_json` and `jsonschema`
(marked `#[verifier::external_body]`, in `src/reading.rs` and `src/schema.rs`),
whose contracts are trusted; `app/` holds the file access and serde plumbing
around the library.

## Layout

- `src/yaml.rs` — `YamlValue`, a YAML document as plain values, and its model `Yaml`.
- `src/reference.rs` — resolution of `!reference [key, ..., field]` tags within a
  document, with cycle detection and a depth limit, and the laws it obeys.
- `src/includes.rs` — merging of `include:` entries (local files are read by the
  caller), tracking includes that cannot be resolved locally.
- `src/gitlab.rs` — the pre-scan for tagged `extends`, the preparation of a
  resolved document for typed reading, and the structural validation of a pipeline.
- `src/models.rs` — the pipeline model and `ValidationResult`.
- `src/workflow.rs` — conversion of a pipeline into the workflow-executor format.
- `src/reading.rs` — reading YAML and JSON text into `YamlValue`, and writing the
  JSON form of a document, through `serde_yaml` and `serde_json`.
- `src/schema.rs` — schema selection by file name and schema validation through
  `jsonschema`.
- `src/schema_refs.rs` — the condition under which checking against a schema
  ends: its `$ref` chains descend into the instance before they come back.
- `src/text.rs` — string helpers shared by the modules.
- `app/` — reading pipeline, include and schema files, the serde form of the model,
  and `parse_pipeline`, which runs the library's steps in order.
- `tests/` — tests of the library on concrete documents.
