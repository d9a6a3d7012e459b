# win_toolkit

The portable, verified logic of a Windows maintenance and diagnostics
desktop app: building the elevated `cmd.exe` command line, decoding and
tidying the console output of redirected tools, the system report and its
byte and uptime formatting, the Windows Sandbox document, the startup-entry
rules, the application-data layout, log rotation, and the decisions of the
background worker that runs operations.

- `src/` is the library. Every function has a contract checked by Verus; the
  laws of the library (compaction is idempotent, display lines carry no line
  breaks, a toggled startup entry reads back as written, subdirectories nest
  under the data directory, at most a week of logs is kept, ...) are proof
  functions or `ensures` clauses there.
- `app/` is the egui program around it: the window, the worker thread, the
  Windows API and registry calls, the environment and the file system.
- `tests/` runs the library on concrete values.
