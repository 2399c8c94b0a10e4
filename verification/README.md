# agent-immune

Dependency scanning and sandboxed execution for code written by agents,
with the decisions verified by Verus.

- `src/` is the verified library:
  - `scanner`: the dependencies declared in `Cargo.toml` / `package.json`
    (parsed with the `toml` and `serde_json` crates) and the vulnerabilities
    that an OSV.dev batch answer reports for them;
  - `mcp_server`: pattern-based security linting of code snippets, and the
    choice between a manifest path and inline content;
  - `leak_check`: the memory-leak gate as a monitor fed with RSS samples,
    and the parsing of `/proc/<pid>/status` and `ps` output;
  - `sandbox`, `firecracker`, `jetstream_consumer`, `serve`: how a sandbox
    job is planned, how the shell or microVM is started, and what is reported;
  - `config`: the configuration and its defaults;
  - `text`: trimming, line splitting, number rendering and parsing.
- `app/` is the program around it: the command line, file and network I/O,
  processes, NATS, the HTTP and MCP servers.
- `tests/` exercises the library on concrete values.
