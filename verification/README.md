# awg_tray

System tray manager for AmneziaWireGuard (`.conf`) and VLESS (`.vless`) VPN
servers, with its logic verified by Verus.

- `src/` — the verified library:
  - `vless.rs`: parsing of `vless://` share links (`percent.rs`, `text.rs`
    hold the percent-decoding and character helpers it uses);
  - `singbox.rs`, `json.rs`: the sing-box configuration built for a link, as a
    JSON document, the mathematical value it stands for, and its JSON text;
  - `config.rs`: settings and the bypass (split-tunnel) applications;
  - `vpn.rs`: server files, their order, status detection, unit names;
  - `control.rs`: the decisions of the action handler, the status poller and
    the tray registration retries;
  - `tray.rs`, `icon.rs`, `autostart.rs`: menu contents, icon colour,
    autostart entry.
- `app/` — the program around it: command line, files, processes, D-Bus
  tray, async loops.
- `tests/` — tests of the library.
