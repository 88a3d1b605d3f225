# bombon

Builds CycloneDX software bills of materials (SBOMs) for Nix store paths, with the logic
verified by Verus.

- `src/` is the verified library: store-path parsing, subresource-integrity hashes, the
  selection of derivations, the conversion of derivations into components, the parsing and merging of vendored SBOMs, the
  deduplication of components, the dependency graph and the serial number.
- `app/` is the command-line program around it (run as `basic-transformer`, it is the basic
  transformer): argument parsing, reading the JSON inputs and
  the files of the vendored SBOMs, reading patch files, and writing the document with
  `cyclonedx-bom`.
- `tests/` exercises the library on concrete inputs.
