# kiss_daemon

The detection logic of the KISS-AV security daemon, as a library verified with
Verus, and the daemon around it.

- `src/` is the library. Every function has a contract over the mathematical
  model of its inputs (strings as `Seq<char>`, lists as `Seq`), and the
  properties the daemon relies on are stated as proof functions (`lemma_*`).
  - `config`: the allowlists, the Crostini display defaults, the
    configuration file's path resolution and the summary text.
  - `engine::heartbeat`: physical idle time and the delta analysis of
    background activity; `engine::fallback`: hooks or heartbeat mode;
    `engine::detector`: the verdicts on what the sensors found, the reports,
    the isolation state and the directives for the daemon.
  - `platform`: the parsers and decisions for what each operating system
    reports (`/proc` files, `ioreg` and `pgrep` output, hook flags, desktop
    names).
  - `text`: string operations with specifications (trimming, lines, words,
    number parsing and printing).
- `app/` is the daemon: it reads the files and command output that the
  library parses, installs the input hooks, runs the tray, and carries out the
  library's directives (exemption logs, the network killswitch).
- `tests/` runs the library on concrete inputs.

Time is a reading of the daemon's monotonic clock in milliseconds, passed to
the library as `now`; everything the library decides is a function of its
arguments.
