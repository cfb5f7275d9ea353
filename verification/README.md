# cfdpip

Keeps Cloudflare DNS records pointed at the machine's public IPv4 address.

- `src/` is the verified library: IPv4 text (reading and writing dotted decimal),
  comma/newline separated lists, the Cloudflare record models, the monitor's state
  machine (what to report, what to write down, when to wait), and the decisions of the
  `current`, `check` and `monitor` commands.
- `app/` is the command line tool around it: argument parsing, environment variables,
  public address lookups, HTTP calls to the Cloudflare API, the monitor's background
  task, its JSON file, and logging.
- `tests/` exercises the library on concrete values.
