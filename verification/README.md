# deadlocked

The verified core of the deadlocked Counter-Strike 2 toolkit.

- `src/` is the library, checked by Verus: the parsers for the text and
  binary formats the toolkit reads (KeyValues agent tables, Steam library
  folders, GLB/glTF models and the DLMS mesh format written from them,
  kwinrc), signature patterns and their resolution, the radar's session
  bookkeeping and links, and the per-tick decisions of the game features
  (target and bone selection, triggerbot timing, counter-strafing, bhop,
  recoil control), each with a contract over a mathematical model.
- `tests/` runs the library on concrete inputs.
- `app/` is the program around it: command-line entry, files, processes,
  network and other system calls. It hands the library plain values and
  acts on what comes back.
