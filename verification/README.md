# cargo-frequent

Tells why cargo keeps rebuilding a project: an environment variable that
changed, a file, the compiler flags, a dependency, the features, and so on.

```bash
cargo frequent [--path <project>] [--command <cargo command>] [--json]
```

The program runs `cargo check` with
`CARGO_LOG=cargo::core::compiler::fingerprint=info`, reads the lines that say
why a unit is dirty, and groups the rebuilds by what was at the bottom of them.
For an environment variable it also looks into
`target/<profile>/build/*/output`, to tell which crate's build script watches
it. Every group is drawn as a layered graph with the trigger at the top:

```
 [env:PATH [volatile] watched-by:pyo3-build-config]
              |
       +------+------+
       |             |
    [numpy]   [python_utils]
```

`[volatile]` marks variables that vary between shells and sessions.

## Layout

- `src/` is the library. It is written in Verus, and its functions are proved to
  do what their contracts say. The proofs rest on what `dag` claims of the crate
  `ascii_dag`, and on what `text` claims of `String::push`.
  - `fingerprint_parser` reads the log,
  - `rebuild_graph` tells which rebuild caused which,
  - `build_script_watches` reads the output of build scripts,
  - `root_cause_cluster` makes the groups,
  - `cluster_ascii_dag_renderer` draws them,
  - `dag` calls `ascii_dag`, which does the layout,
  - `text` and `text_order` hold what the others need of texts,
  - `laws` states what holds of the library as a whole.
- `app/` is the program around it: the command line, running cargo, reading
  files and writing JSON.
- `tests/` runs the library.
