# cube_editor

The logic of a scene editor for a small game engine, written in Verus and
proved against its contracts: undo/redo history, editor entity ids,
selection and picking, the command queue, the asset browser's state
machine, glTF import planning, script and shader file watching, UI plugin
registry, project build planning, particle GPU slots, and the path and
name handling that all of these share.

Layout:

- `src/` — the verified library. Paths are held as `ContentPath`
  (a root flag and component names, viewed as `PathModel`), and each
  module states its functions over spec models of that kind. Laws that
  relate several calls (undo after a change, toggling twice, id round
  trips, debouncing, ...) are public proof functions beside the code they
  speak of. Where a decision rests on what the file system answers (is a
  name taken, what is a path's canonical form), the deciding function takes
  the question as a function value and states its result over the answers
  it got (`answered`, `canon_answered`); the file-system versions state the
  same over `disk_answered` and `disk_canonical`.
- `tests/` — tests on concrete values for each module.
- `app/` — the file-system, process and watcher edges around the library
  (`notify`, `toml`/`serde`, `thiserror`), and an entry point that runs
  the plugin and file-watching services; `<project> --import <file>
  [<folder>]` imports a glTF asset into the project instead.
