# panel_cli

A command-line client for the 1Panel server panel, with its core written in Verus.

- `src/` is the verified library: configuration values, the session path and the session
  record (reading and writing the file stays in `app/`), the login exchange
  (captcha, entrance code, MFA, password encryption envelope, login time in UTC), the
  `exec` terminal protocol (command composition, sentinel detection, output cleaning,
  capped collection, exit codes, JSON result), the firewall rule planning for both panel
  APIs and the Docker port guard, app store paging and tables, databases, Redis settings,
  websites, the API route catalog, and the `doctor` checks. Calls into `base64`, `hex`,
  `percent-encoding`, `serde_json`, `rand`, `rsa`, `aes`/`cbc` go through small trusted
  wrappers whose contracts are stated beside them.
- `app/` is the program around it: argument parsing, `.env` loading, the HTTP client and
  the terminal WebSocket, session files on disk, and printing.
- `tests/` exercises the library on concrete values.

Run `1panel-cli doctor` first; `1panel-cli --help` lists the commands.
