# audeep

An offline auditor of the local machine and its network: hardware
inventory, host discovery on the local `/24`, a scan of common TCP ports,
matching against an offline vulnerability database, and a JSON/HTML report
that can also be served over HTTP.

## Layout

- `src/` — the library, verified with Verus:
  - `text.rs`: the character-level model of strings (lines, words, trim,
    replace, split/join, decimal numbers, templates);
  - `sorting.rs`: stable insertion sort, specified once with its laws;
  - `scanner.rs`: port results, service names, banners, collecting a host's
    open ports;
  - `vuln.rs`: the vulnerability database entries, matching a port, the
    de-duplicated and ordered findings of a host, and the rows that
    `cve.db` is built from (`--build-cve` rebuilds it from `vuln_db.json`);
  - `network.rs`: IPv4 addresses and the subnet, IP address text (IPv4 and
    IPv6), the OUI vendor table and locally administered MAC addresses, the
    ARP table, enriching and assembling discovered hosts, the liveness probe
    and when a ping counts as answered (a `TTL=` in its reply);
  - `report.rs`, `templates.rs`: the HTML report, chart data and console lines;
  - `serve.rs`: the HTTP server's decisions (cached report, background scan,
    the answers while the first scan runs) and responses;
  - `hardware.rs`: the processor and interfaces as the report shows them;
  - `json.rs`: JSON decoding of plain values through `serde_json`.
- `app/` — the program: command line, sockets, `ping`, `sysinfo`, SQLite,
  files, the clock and floating-point figures.
- `tests/` — tests of the library.

Data files (`oui.json`, `oui_full.json`, `cve.db`, `vuln_db.json`) are read at
run time from the program's directory, its `assets/` folder or the working
directory.
