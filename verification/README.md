# qfetch

A fast, configurable fetch tool: it prints what the system reports (os, host,
kernel, uptime, shell, desktop, cursor, cpu, gpu, memory, swap, mounted disks,
locale, color palettes) beside a colored logo.

The library under `src/` holds the logic, verified with Verus:

- `color`: the colors of the configuration turned into escape sequences.
- `config`: the configuration checked and turned into settings: rows in
  output order, keys and logos read as string literals, padded logos.
- `literal`: the body of a Rust string literal read with its escapes.
- `ident`: the constant names of the logos, which must be Rust identifiers
  (upper case from `str::to_uppercase`, identifier characters from
  `unicode-ident`).
- `logo`: `$1`..`$9` color marks and the padding of logo lines.
- `order`: the order of the output rows.
- `sysinfo`: each module's value from what the system reported.
- `fetch`: the rows with their values and the screen beside the logo.
- `text`, `display`: text helpers, and terminal widths and byte sizes from
  the `console` and `humansize` crates.

`app/` is the program: it reads `config.yaml` (or the file that
`CONFIG_FILE_PATH` names), the logos under `logo/`, the environment and the
system's files and calls, and prints what the library computes.
