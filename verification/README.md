# Orma

Loads a system's passwords and machine-id at boot from an *identity volume*
kept apart from the system image. The image carries a schema whose fields
describe the values it needs; orma checks a volume against that schema
(`resolve`) and populates a volume from it (`generate`).

The decision logic is written in Verus and proved against its specification;
everything that touches the world (files, terminals, tools, randomness) sits
in a thin driver around it.

## Layout

- `src/` — the verified library.
  - `engine/` — sans-I/O decision logic:
    - `field_type` — the field types (`machine-id`, `hashed-password`), their
      validators over UTF-8 text, the modes values are stored under, and the
      recipes that produce values;
    - `schema` (and `schema/declared`) — admitting a declared schema: version,
      field paths that cannot leave the volume, no path used twice, known
      types;
    - `generate` — the generate operation as a state machine that hands out one
      request at a time (check, draw randomness, hash a passphrase, write) and
      is resumed with the answer; its invariant and the order of its requests
      are proved, and `generate/runs` follows whole runs, answer by answer:
      checks first, in order; the survey's verdict; productions and writes for
      exactly the required fields found absent; a failure ending the run;
    - `resolve` — the engine's own resolve, which so far evaluates no field
      type: it accepts a schema declaring nothing and refuses any other,
      naming its first field. The `orma resolve` command does not use it; its
      decisions come from the listed-schema `resolve` below.
  - `schema`, `field_types`, `resolve`, `generate` — the listed-schema
    evaluation: validators reporting text, evaluation of every field's read,
    which reads a resolve writes (none unless every field is accepted), the
    tools provisioning needs and which are missing, and the values that would
    be overwritten.
  - `platform/` — choices made for the operator: how to ask questions, what a
    piped answer is, how rehearsed answers are handed to the run, what exit
    status a failure ends with.
  - `text` — characters, UTF-8 decoding, splitting, trimming, decimal numbers.
- `app/` — the `orma` command: argument parsing, YAML, the filesystem, the
  terminal, `mkpasswd` and `systemd-ask-password`, `/dev/urandom`.
- `tests/` — tests of the library.
