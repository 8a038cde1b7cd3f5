# dhdesktop

The verified core of DHDesktop, a desktop shell around the DeepSeek Harness
agent runtime (`dsh`).

`src/` is a Verus library; every function in it is verified against its
contract:

- `paths` — where the client's own `DSH_HOME`, profile, pid file and local
  runtime live, computed from a snapshot of the environment (`Host`).
- `locate` — how `dsh` is found (override, local runtime, `PATH`, well-known
  directories, `npx`), the child's `PATH`, and the environment report.
- `profile` — the plugin view of the profile manifest.
- `proxy` — the request-head rewriting of the local reverse proxy.
- `backend` — the backend lifecycle as a state machine, the ready line, the
  token-for-cookie exchange, and the cleanup of a backend left behind.
- `text`, `json`, `urlparts` — character sequences, and the readings of
  `serde_json` and `url` results.

`app/` is the Tauri application around it: windows, menus, commands, child
processes, signals and sockets. It only carries out what the library decides.

`tests/` exercise the library on concrete values.
