# wineshm

Expose a Windows program's named shared memory to Linux: run the bridge
inside the Wine or Proton prefix, name the blocks, and each appears as a file
under `/dev/shm` that any Linux program can open and read.

## Layout

- `src/` — the library, verified with Verus. Every decision the bridge makes
  is here with its contract: which pages to publish and how they are written
  (`page`, `recipe`, `cli`), the note it leaves and how it is read back
  (`announce`, `reader`, `liveness`), what `--verify` reports (`inspect`), how often it looks and when it copies
  (`pacing`, `shadow`, `schedule`, `win`), when it blanks and when it stops
  (`watchdog`, `supervise`, `shutdown`, `handoff`), how it is started from
  Linux (`launch`), and what it measures (`probe`, `watch`). Time is a value
  (`time::Duration`), never a clock reading.
- `app/` — the program around it: arguments, files, the clock, the terminal
  and the Win32 calls.
- `tests/` — tests of the library on concrete values.
