# sahou_core

The verified core of Sahou, a schema-first layer for messages between programs on a LAN: a
contract (`schema.sahou.yaml`) declares nodes and connections with typed payloads, and every
boundary says NO early to a wrong type or a mistyped field.

Every function under `src/` carries a contract. Verus proves the contracts of the library's
own functions; a few small functions that call std or an outside crate (SHA-256, hex
encoding, the base64 decoder, `Path` joins and file names, character classes, `Debug` quoting,
the terminal style writer) are trusted wrappers whose contracts are believed, and each says in its
doc comment what it claims. White space is a spec function over the Unicode White_Space code
points, and the table of tones and terminal colours is verified code.

- `model` — the contract, the endpoints, the descriptor and JSON values (keyed collections
  are entry lists; floats are carried as their binary64 bits and source text).
- `schema_check` — self-validation of a contract, with positioned diagnostics.
- `payload` — validation of a JSON value against a slot.
- `compat` — classification of contract changes (additive, promotion, breaking), the
  delivery-time handshake and the blast radius of a change.
- `ir` — keys, per-connection fingerprints (SHA-256) and the descriptor.
- `runtime` — node capabilities from the wiring, the four send/receive boundaries, the
  handshake verdict and delivery classification.
- `stubgen`, `stub` — typed stub generation (Python, TypeScript) and stub/descriptor drift;
  `stub_laws` holds the lemmas behind the stub round trip.
- `vitals`, `doctor_lan`, `doctor`, `tap`, `link`, `gui`, `files`, `init` — the decisions of
  the command-line tools: roll calls, preflight diagnosis, traffic rendering, the relay's idle
  state machine, the editor's HTTP refusals and compare-and-swap writes, project scaffolding.
- `strs`, `style`, `jsontext`, `diag`, `endpoints` — text, terminal styling, compact JSON
  text, diagnostics and deployment settings.

Public proof functions state the library's laws, for instance `sent_value_is_accepted`,
`unchanged_contract_has_no_changes`, `exact_hashes_have_no_drift`, `markers_read_back` (a
written marker header parses back to exactly the hashes it was written with) and
`generated_stub_reads_back` (each generated stub file, and the files joined, read back as their
node and the descriptor's hashes, with no drift); `marker_line_reads_back` is the one-line step
of the last two. Others: `hashes_read_are_well_formed`, `repeated_lines_read_the_same`,
`plain_lines_anywhere` and `stub_text_read_twice` (what marker reading gives back),
`payload_reads_declared_fields` (undeclared fields and nulls), `value_diags_under_path`,
`own_name_finds_its_target`, `own_path_finds_its_target` and `probe_sequence_ends`.

`app/` is the `sahou` command line around the library: YAML and JSON reading and writing
(serde), the file system, the editor's HTTP server, and sample payloads (which need floating
point). `tests/` exercises the library on concrete values.
