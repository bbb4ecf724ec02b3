# kimi_router

The logic of a router for several Kimi Code subscriptions, verified with Verus: which account
a session goes to, how accounts are shared out among ACP clients, what the local control
service answers, and what the command line tool and the window show and decide.

## Layout

- `src/` is the library. Every function states what it does in its contract.
  - `text`, `dates`, `quota`: strings, the last day of a subscription, quotas and the order
    keys of their ratios.
  - `paths`, `home`, `runtime_config`: where files lie, the home of each account, and the part
    of the Kimi Code configuration that is taken over into it.
  - `acp_config`, `acp_form`, `vscode`: the account pools of the ACP targets, editing them, and
    the settings of a VS Code workspace.
  - `routing`: the choice of the account for a session.
  - `recommend`, `table`, `cli`, `watch`: the command line tool.
  - `control`, `account_view`, `worker`, `app_state`: the control service, the worker and the
    window.
- `tests/` runs the library with the real outside crates.
- `app/` is ordinary Rust around the library: files, processes, the HTTP server and the
  drawing of the window. The host program supplies the account registry, the credential store
  and the Kimi provider as a `Services`.

Ratios are floating-point numbers. The library holds integers that compare as the ratios do
(`quota::ratio_key`); `app/` computes with the ratios themselves.
