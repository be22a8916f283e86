# jtop

A terminal monitor for NVIDIA Jetson boards: processor, graphics, memory,
thermal zones, fans, power rails, processes and board information, read from
the local kernel interfaces or from a remote board over SSH.

## Layout

- `src/` is the library, verified with Verus:
  - `text.rs`: the text primitives the parsers are built on (lines, words,
    trimming, splitting, searching, decimal numbers), each specified against
    the behaviour of the corresponding `str` method.
  - `hardware/`: the data model of a snapshot and the parsers of what the
    kernel exposes (`/proc/stat`, `/proc/meminfo`, `/proc/{pid}/stat`,
    `/proc/{pid}/status`, `/etc/passwd`, sysfs attributes, the L4T and CUDA
    release files), plus the decisions taken on those readings.
  - `remote.rs`: the parsers of the batch output read from a remote board.
  - `auth.rs`: the order of the SSH login methods and the failure message.
  - `app.rs`: the state of the front end (current page, snapshot history) and
    its answer to key presses.
  - `ui.rs`: the pages and the texts shown that involve no floating point.
  - `args.rs`: the command line.
- `app/` is the program: it reads files, runs commands, talks SSH, computes
  the floating-point percentages and draws the pages with ratatui.
- `tests/` exercises the library on concrete inputs.

Values that are floating point in the kernel's files (power rails, memory
controller activity) are carried by the library as the bits of an `f32`; the
others are kept as the kernel's integers (tenths of a percent, thousandths of
a degree, tick counters), from which the program derives the percentages.
