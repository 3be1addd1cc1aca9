# tinyinference

A control panel for `llama-server`: it keeps a library of GGUF models, starts and
follows one or more model servers, shares them with other devices, and runs a
small tool-using chat agent on top of them.

The decisions of the panel are a Verus library. Each function states what it
returns or changes in `requires` and `ensures`, and the properties that tie
several functions together are public proof functions whose names start with
`law_`.

## Layout

- `src/` is the verified library. It reads no files, opens no sockets and starts
  no processes: it takes what was read as plain values and returns what is to be
  done next.
  - Configuration: `config`, `validate`, `settings`, `panel`, `appearance`.
  - Models on disk and on the hub: `cache`, `cache_paths`, `disk`, `paths`,
    `shards`, `hub`, `fetch`, `download`, `library`.
  - Servers: `command`, `instance`, `slot`, `launch`, `moments`, `probe`, `rates`,
    `servers`.
  - Sharing: `address`, `ip_text`, `network`, `keys`, `remotes`, `listen`, `bind`,
    `linking`, `sharing`, `share_proxy`, `tls`, `peers`, `discovery`, `catalog`,
    `network_page`.
  - Chat and the agent: `chat`, `routing`, `messages`, `agent`, `search`, `html`,
    `skills`.
  - The machine, the dashboard and the terminal: `system`, `dashboard`, `display`,
    `terminal`, `screens`, `desktop`, `update`, `app`.
  - Shared tools: `text`, `json`, `floats`, `order`, `units`, `fresh`.
- `app/` is the program around it: arguments, files, processes, HTTP, mDNS and
  UDP.
- `tests/` runs the library on concrete values.

## What is trusted

JSON is read and written by `serde_json`, random bytes come from `getrandom`,
column widths from `unicode-width`, certificates from `rcgen`, and a few
conversions of text from the standard library. Each such call stands in one
small function whose doc comment says what is believed of it.
