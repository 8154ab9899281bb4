# enthropic

A toolkit for the `.enth` architectural specification format: it parses a spec,
checks it against the format's rules, keeps a build-state file and an encrypted
vault of project secrets, writes the context block for an AI assistant, answers
MCP requests, and scaffolds new specs.

## Layout

- `src/` — the library, written in Verus. Every function carries a contract
  over a mathematical model (sequences of characters, keyed sequences), and the
  proof functions named `law_*` state properties that span several functions:
  - `text` — trimming, splitting, lines and words, as `str` does them;
  - `parser` — the `.enth` reader, specified line by line (`parse_spec`);
  - `validator` — the format's rules, in order;
  - `state` — the build-state file and status updates;
  - `store` — encrypted string maps (ChaCha20-Poly1305 over JSON);
  - `vault` — project secrets and the vault status file;
  - `global_config`, `context`, `project`, `mcp`, `wizard` — the settings, the
    context block, file naming and `.gitignore` upkeep, the MCP tool answers,
    and the new-project wizard's output;
  - `readback` — the wizard's output read back through the parser.
- `tests/` — tests of the library on concrete values.
- `app/` — the `enthropic` command line: argument handling, terminal prompts,
  files under `~/.enthropic`, and the MCP stdio loop.
