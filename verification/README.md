# loggerheads

A system monitor that logs file-system events, busy processes, network
connections and captured packets, in JSON or plain text.

- `src/` is the verified library (Verus): event rendering (`render`,
  `types`), configuration (`config`), connection tracking between scans
  (`connections`, over the keyed `table`), inspection of captured Ethernet
  frames (`packets`), the network watcher's per-scan decisions and log
  buffering (`monitor`), and the texts of the process and file watchers
  (`process`, `filewatch`). Text helpers live in `text`.
- `app/` is the program around it: command-line parsing, the configuration
  file, the log file, and the watchers' loops that read the clock, the file
  system, the process table, the socket table and the capture channel.
- `tests/` exercise the library on concrete inputs.
