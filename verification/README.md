# astronomy

An SSA intermediate representation with a builder, a verifier, a canonical
`.arn` text format (printer, lexer and parser) and a NASM x86-64 backend,
written and proved with Verus.

## Layout

- `src/` — the verified library.
  - `id`, `symbol`, `types`, `constant`, `value`, `instruction`, `block`,
    `function`, `module`, `span` — the IR and its interning stores.
  - `builder` — the checked builder (`ModuleBuilder`, `FunctionBuilder`).
  - `verify` — the verifier (`cfg`, `ssa`, `typing`): `verify` succeeds
    exactly when the module satisfies `module_valid`.
  - `text` — `lexer` (its tokens, and the kind, line and reason of its
    errors, are specified exactly), `parser`, `printer` (the printed text
    is specified line by line: blocks in reverse post-order, then the
    unreachable ones by index; the text is a function of the module).
  - `nasm` — type layout and code generation.
  - `error` — the error types and their messages.
  - `textbuf` — byte and string helpers.
- `tests/` — the test suites.
- `app/` — the command-line programs (`astronomy` and the `arn2nasm`
  subcommand) and the float literal conversions, which stay outside the
  verified library.

## Conventions

Float constants are carried as their IEEE bit patterns; printing and
parsing take the text conversions as closures supplied by the caller.
