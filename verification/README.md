# modkist

The verified core of Modkist, a desktop mod manager for Zeepkist: how mods
are named, ordered, installed and tracked, how mod.io requests are built and
their errors classified, how Wine's `user.reg` and GameHub's overrides are
edited so BepInEx loads, where Wine prefixes and Wine-installed games are
looked for, how the game is launched, how sideloaded files are classified,
and how mod profiles are kept.

- `src/` — the library, written in Verus; every function carries its
  contract and is proved against it. `src/user_reg_proofs.rs` holds the proof
  that merging the winhttp override always leaves `user.reg` configured and
  keeps a section's entries, ordered by name; `src/prefix_search.rs` proves
  that its step-by-step directory walk finds what a recursive walk finds.
- `tests/` — tests of the library on concrete values.
- `app/` — the file-system, process and environment side (reading and
  writing files, listing directories, unpacking zip archives, listing and
  starting processes, GameHub's JSON stores), which hands plain values to the
  library.
