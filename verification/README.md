# porthole

The detection logic and the user-interface decisions of Porthole, a tray
application that lists the dev servers listening on local ports, the project
each belongs to, and the tunnels (ngrok, Cloudflare Tunnel, Tailscale,
localtunnel) that point at them. Every function in `src/` is verified with
Verus against a contract stated over mathematical models of its inputs,
except the few trusted wrappers (marked `#[verifier::external_body]`) that
make a single call into serde_json, png or std; their contracts state what
that call is documented and written to do, and are not proved.

- `src/` — the library.
  - Parsers: `ss_parser` (`ss -tlnpH`), `proc_net` (`/proc/net/tcp`,
    `/proc/net/tcp6`, the fallback when `ss` gives nothing), `ngrok_parser` (ngrok local API),
    `cloudflared_parser` (command lines and `config.yml`), `tailscale_parser`
    (`tailscale serve status`), `localtunnel_parser`, with `text` and `json`
    underneath.
  - Assembly: `port_assembler` (rows, tunnels by port, sort order),
    `process_name_heuristic`, `project_resolver`, `scan_service` (the Linux
    scan), `ignore_rules` and `ignore_store` (the ignore list).
  - Interface decisions: `window` (tabs, cards, footer counts),
    `ignored_tab`, `port_row`, `project_group`, `tray` (icon pixmap), `host`,
    `i18n`, `updater`.
  - `win/`: the Windows scan (PowerShell document, processes, sockets),
    project resolution from command lines, the frontend's shapes, the ignore
    list, and the action commands.
- `tests/` — tests on concrete values.
- `app/` — the Linux GTK program around the library (I/O, widgets, threads),
  and the I/O functions of the Windows runtime (its scan, ignore-list file
  and frontend commands); the Windows Tauri shell that would register those
  commands is not part of this repository.
