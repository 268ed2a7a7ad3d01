# dsh_desktop

The verified decision logic of the DeepSeek Harness desktop shell, written in
Verus.

- `src/` is the library. Each module states its rules as contracts over
  mathematical models and proves them: log tails, line splitting and the
  redacted diagnostic bundle (`logs`, `report`), service log rotation as plans
  over numbered files (`rotation`), the plugin compatibility gate
  (`plugin_compat`), exact core compatibility records and version adapters
  (`core_compat`, `dsh_adapter`), the authenticated browser URL and boot-page
  probes (`workflow`, `url`), snapshots and frame observations
  (`diagnostics`), the local control plane's catalog, arguments, load-test
  statistics and profile-switch state machine (`control`), the directory
  allow-list (`guard`), plugin rebinding after a core switch (`rebind`), the
  command-line arguments of the diagnostics tool (`cli`) and the injected
  WebView probes (`probes`).
- Calls into `semver`, `regex` and `url` (through `reqwest`) stand behind
  trusted wrappers whose contracts name their results; the call into `rand`'s
  operating-system generator stands behind a wrapper that promises nothing of
  its bytes.
- `app/` is the `dsh-desktop-diagnostics` command with the file and JSON work
  it needs, plus the file and loopback-probe helpers that the shell's
  commands call; those commands need Tauri and are not part of this
  repository, so the helpers have no caller here.
- `tests/` exercise the library on concrete values.
