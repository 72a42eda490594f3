# unity-crop

Exports the sprites of sliced Unity sprite sheets: for every PNG with a `.meta`
file next to it, each sprite rectangle recorded by Unity's Sprite Editor is cut
out and written as its own PNG, under a directory and file name built from
templates.

## Layout

- `src/` is the library, written in Verus and verified. It holds every decision
  the tool makes, with its contract:
  - `naming`: template checking, placeholder substitution, file name
    sanitization, and the proof that a rendered output path never leaves the
    output root;
  - `discovery`: glob selection (through the `globset` crate), the Unity
    directories skipped by default, `.meta` pairing, and the order of sheets
    (a stable sort by path);
  - `allocator`: output paths under the collision policies, the proof that
    no path is handed out twice in a run, and the proof that renaming always
    reaches a candidate the run has not reserved;
  - `processor`: rectangle checks, the crop region, export plans, the step by
    step work on one sheet (including `--fail-fast`, and the proof that no step,
    such as decoding the image, comes twice), and the run's tallies;
  - `paths`, `text`, `globs`, `cli`, `unity_meta_file`: paths read as Unix
    paths, character helpers, glob sets, settings and metadata types.
- `app/` is the command-line program around it: argument parsing (clap), YAML
  parsing of `.meta` files (serde), directory walking (walkdir), image decoding
  and saving (image), and the worker threads (rayon). It asks the file system
  the questions the library needs answered and carries out what it decides.
- `tests/` exercises the library on concrete values.
