# ConvertBar

A queue for batch video conversion with HandBrakeCLI: files go in, are encoded one at a time, and
whichever file ends up smaller stays. It runs as a server with web pages, or behind an icon in the
menu bar.

`src/` is the library: everything that decides something. It is written in Verus and verified:
each function states what it returns, and the rules that hold across functions (a source never goes
for a larger output, a shut gate refuses the right token too, a skipped version is not installed)
are stated as proof functions beside them.

| Module | What it holds |
|---|---|
| `text`, `paths`, `json`, `net` | texts, Unix paths, JSON values, addresses and networks |
| `queue_run`, `converter`, `progress`, `diagnostics` | the run of the queue, and what it says of an encode |
| `failure_class`, `media_skip`, `probe`, `probe_cache` | what is known of a source |
| `handbrake` | presets, suffixes and the encoder's place |
| `watcher`, `add_progress` | watched folders and the taking in of files |
| `updater`, `update_cycle` | updates of the program itself |
| `config`, `auth`, `throttle`, `routes`, `info`, `listing`, `embed` | the server |
| `tray`, `commands`, `startup`, `db`, `types` | the window, the start, and what is stored |

`app/` is ordinary Rust around it: the processes, files, rows, sockets and floating-point numbers
that the library has no part in. Times in the library are integers, addresses are numbers, and
paths are texts with `/` between their components: where the system writes `\`, `with_slashes` puts
that right before a path goes in.

`tests/` runs the library on concrete values.
