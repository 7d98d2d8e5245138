# doctrine

The pure core of `doctrine`, a command-line tool that keeps a project's
slices, specs, standards, requirements and phase tracking as TOML and Markdown
files under `.doctrine/`. Every function in `src/` is verified with Verus: its
contract states what it returns or changes, and Verus proves the body meets it,
except for the few wrappers marked `#[verifier::external_body]` that call into
std, `toml` and `toml_edit`: Verus takes their contracts on trust.

## Layout

- `src/` — the verified library.
  - `text`, `sorted`, `table`, `listing`, `entity` — strings, sorted maps and sets, list
    tables, ids, the status filter lists share, and entity kinds and scaffolds.
  - `lifecycle`, `slice`, `slice_status`, `close_gate`, `slice_list`, `show`,
    `selector` — the slice lifecycle, references, scaffolds, the close gates,
    the list and show views, and edits of a slice's selectors.
  - `state`, `phase_init`, `phase_sheet`, `boundary` — phase tracking: the
    rollup, phase ids, the status transition written into a tracking sheet,
    and the recorded code boundary of each phase.
  - `spec`, `spec_list`, `req_list`, `registry`, `second_parent`, `members`, `requirement`,
    `standard`, `supersede`, `tag` — specs, their list table, their
    requirement rosters and membership edits, the registry of their edges,
    the second-parent parse check,
    standards, record supersession, tags.
  - `status`, `status_data` — the project dashboard.
  - `tty`, `kitty`, `terminal_image` — terminal decisions and the `--render`
    preflight.
  - `verify`, `value`, `tomlfmt`, `tomldoc` — configuration resolution, TOML
    literals, and the edit-preserving TOML document the edits work on.
- `tests/` — tests of the library, run against the compiled crate.
- `app/` — the `doctrine` command: argument parsing, file and process I/O,
  serialisation, and the floating-point value facet.
