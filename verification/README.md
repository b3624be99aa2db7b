# termx

A small shell language for the web terminal of a blog: a lexer, a parser, an
evaluator and a registry of commands (`echo`, `id`, `hostname`, `ls`, `cat`,
`open`) over the files of the site. The library is written in Verus and its
behaviour is stated in `requires`/`ensures` contracts over mathematical
models and proved.

Layout:

- `src/text.rs` — character classes (through `char`'s methods) and text
  helpers: decimal numbers, padding, joining.
- `src/errors.rs` — lexer and parser errors and their messages.
- `src/lexer.rs` — the lexer and its model (`LexState`), with the conditions
  under which it does not panic.
- `src/parser.rs` — statements: system commands, function calls and
  function declarations.
- `src/evaluator.rs` — running statements against a registry, and how
  statements are shown with `{:?}`.
- `src/registries.rs` — files, command definitions and the `CommandRegistry`
  trait.
- `src/termx_registry/web.rs` — the registry of the web terminal.
- `src/lib.rs` — `run`, and what the terminal shows for a command line.
- `src/laws.rs` — properties relating several functions.
- `tests/` — tests on concrete inputs.
- `app/` — the terminal program, the web handlers and the page templates.
