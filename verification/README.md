# cdlvsm

Package manager and dispatcher for codelovesme's first-party command-line
tools, with its decisions verified by Verus.

`cdlvsm install <pkg>` fetches a release into
`$PREFIX/share/cdlvsm/packages/<pkg>/<version>/`, points `current` at it and
puts a `cdlvsm-<pkg>` shim in `$PREFIX/bin`; `cdlvsm <pkg> <args...>` runs
the installed binary; `upgrade`, `uninstall`, `list` and `update` do what
their names say.

## Layout

- `src/` — the library, verified:
  - `cli` — what a command line asks for, and the reserved names;
  - `paths` — the install layout under `$PREFIX`, and path prefixes by
    component (what uninstall's safety check rests on);
  - `package` — the registry, release specs, install plans and reports,
    the choice of `code`'s single build, what installing `euglena` brings
    with it, uninstall's ownership check, upgrade's decisions, `list`;
  - `meta` — the `.cdlvsm` metadata file: its text and its reading, and that
    one gives back the other;
  - `download` — reading a release's tag and asset names from the API's reply;
  - `update` — the decisions of self-update;
  - `desktop` — launcher entries: `app.info`, desktop entries, macOS bundles;
  - `order`, `text` — sorting and the string operations the rest is built on.
- `app/` — the program around it: arguments, environment, files, links,
  `curl`/`tar`, printing.
- `tests/` — tests of the library on concrete values.
