# sweep

A disk and memory maintenance tool for the command line: it finds reclaimable
caches and moves them to the trash (with undo), finds duplicate files through a
local index, watches free disk space and memory from a guard loop, and reports
what is using the machine.

## Layout

- `src/` is the library, written in Verus and verified whole. Its functions
  state in `requires`/`ensures` contracts what Verus proves of them:
  category discovery and the
  exclusion policy, glob matching, cleaning and its undo journal, duplicate
  grouping, the incremental index walk and its provenance stamps, the guard's
  cycle planning and disk rescue, reserve hysteresis, mount and device
  parsing, and the small text parsers behind them. Laws that span several
  functions stand as public proof functions beside the code they speak of.
- `src/domain/` holds the shared data types and the traits (`IndexStore`,
  `PathRemover`, `SystemMonitor`, ...) through which the library reaches the
  outside world; their implementations are supplied by the caller, and the
  contracts speak of whatever those implementations answer. The paths and
  platform rules follow the Linux build; the Windows rules that matter to
  the library (index path case, the System32 guard) take the platform as an
  argument.
- `app/` is the program: argument handling, the filesystem, SQLite, the trash,
  process signals and printing. It implements the domain traits and hands the
  library plain values.
- `tests/` runs the library on concrete inputs.

The only outside crate the library itself calls is `serde_json`, behind small
wrappers whose contracts state what its documentation promises.
