# SmartEQPresetSwitcher

Manages Equalizer APO presets on Windows and a PipeWire `param_eq` filter
chain on Linux: groups of presets, a single active preset written into
Equalizer APO's `config.txt` through a managed include, `.wav` convolution
files, backups of the whole library, AutoEQ presets and a terminal interface.

## Layout

- `src/` is the library, verified with Verus. Each module states what its
  functions return in `ensures` clauses over spec functions:
  - `library` — the preset library and every operation on it; `unique_names`
    — the laws that every operation keeps group and preset names distinct;
  - `preset_text` — preset files, `Convolution:` lines and `config.txt`;
  - `backup` — backups of the library and restoring them;
  - `autoeq` — the AutoEQ catalogue: when caches are used, what is
    downloaded, which file of the package archive is a preset, and the
    lookup that takes each kind, in preference order, from the cache or
    the archive;
  - `tray`, `tui`, `cli` — the tray menu, the terminal interface and the
    command line;
  - `backend`, `linux_export`, `elevation`, `shell`, `paths` — the system
    equalizer status, the Linux export, elevated PowerShell runs, revealing
    files and path handling;
  - `text`, `names`, `listing`, `encoding`, `model`, `error` — shared text
    functions, name rules, sorting, base64 and the data types.
- `app/` is the program around it: files, processes, the network, the
  registry and the terminal.
- `tests/` runs the library on concrete values.
