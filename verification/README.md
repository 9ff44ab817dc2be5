# AgentSeek Desktop

AgentSeek Desktop creates, configures and runs AgentSeek instances on one machine. What it decides
is a library whose functions carry contracts that Verus proves. What it asks the machine for, and
what it does to it, is ordinary Rust around that library.

## Layout

- `src/` is the library.
  - `text`, `search`, `split`, `rows`, `number`, `order`, `paths`, `unicode`: texts as sequences of
    characters, and the operations on them that the rest is stated in.
  - `model`, `env`, `round_trip`, `vault`: instances, log entries, variables, the `.env` format and
    the vault of variables.
  - `urls`, `ports`, `port_laws`, `services`: ports in variables and addresses, and how conflicts
    are settled.
  - `lifecycle`, `commands`, `command_laws`, `compose`, `projects`, `patches`: how the files of an
    instance follow its variables.
  - `deploy`, `instances`, `flow`, `processes`, `programs`: how an instance is made, started,
    watched, stopped and deleted, step by step.
  - `versions`, `tools`, `install`: the tools that are needed, and the script that installs them.
  - `logs`, `log_pages`, `runtime_logs`, `reports`, `repair`, `storage`, `switching`, `json`: the
    log, what instances print, and how the records are kept.
- `tests/` runs the library on values.
- `app/` is the program: files, processes, ports, the database and the window.

## Conventions

Contracts speak of views: a text is a `Seq<char>`, a record a structure of such sequences. What
holds of several functions together stands in public proof functions whose names start with `law_`.
What the machine answers (which ports are free, what a process printed, what stands between the
parts of a path) is an argument, so each decision is proved for every answer. The few calls into
`serde_json`, `toml` and the Unicode tables of the standard library stand behind functions whose
comments say what is believed of them.
