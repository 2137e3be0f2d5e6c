# research_artifact_uploader

`rau` collects the files of a research run named in a YAML manifest, packs
them into a `tar.gz` archive with a SHA-256 checksum and a metadata file,
copies the three files to Alibaba Cloud OSS with `ossutil cp`, and appends
a line to local JSONL and Markdown records.

## Layout

- `src/` is the library, written in Verus. It makes the tool's decisions on
  plain values (what to collect, what to name, what to run, in which order)
  and states them in `requires`/`ensures` contracts that Verus proves:
  - `manifest`: the manifest's types, defaults and validation;
  - `paths`, `sorting`, `text`: Unix path components, the order of paths,
    and the text helpers the rest is built on;
  - `collect`: what each artifact contributes, given what the file system
    says of its paths;
  - `archive`: run ids, archive member names (unique across a run),
    checksums and the `.sha256` line;
  - `metadata`, `gitinfo`, `oss`, `records`: the metadata record, git
    information, `ossutil` commands and addresses, and the record lines,
    written and read back;
  - `cli`: the steps each command takes, in order.
  Laws that span several functions are public `proof fn`s named `lemma_*`.
- `app/` is the `rau` binary: argument parsing, file system probes, `git`
  and `ossutil` processes, YAML and JSON, tar and gzip, and the timing
  figures, which are floating point.
- `tests/` exercises the library on concrete values.
