# qbx_lua_ls

The core of a Lua language server for FiveM resources, written in Verus.

- `src/` is the library. Every function states in its contract what it returns or changes, and Verus
  proves it.
  - `index`, with `model`, `queries`, `slots` and `modules`: files and resources by number, symbol
    tables over all files, which file sees which, and what a `require` argument stands for.
  - `server`, with `documents`, `settings`, `capabilities`, `session` and `messages`: open documents,
    what each notification, change on disk and request makes of the server, and the pass that lints
    the files nobody has open.
  - `laws` and `server_laws`: what holds of both whatever they went through.
  - `text`, `paths`, `tables`, `symbols` and `documents` declare what the library takes from `std`,
    `smol_str`, `lsp-types` and `rustc-hash`, and what it relies on in each call.
- `tests/` runs the library on examples.
- `app/` is the server itself: the connection to the editor, JSON, and a `Backend` trait for the
  parser, the linter, the formatter and the natives database.
