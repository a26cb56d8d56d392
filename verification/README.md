# calc-lang

The verified core of `calcc`, the compiler for calc-lang, a small expression
language: numbers, the four arithmetic operators, `if`/`else`, blocks with `let`
bindings, and `print`.

`src/` is the library, checked by Verus:

- `lexer`, `parser`, `frontend`, `ast`: the grammar and the parser that reads it;
- `resolve`: name resolution over nested block scopes;
- `ir`, `lower`, `lower_laws`: the three-address IR, lowering into it, and what
  lowering guarantees (dense, single definitions; writes before reads);
- `semantics`: what a program means and what running IR does, over any kind of
  value, and the proof that lowering keeps a program's meaning;
- `builtins`: the built-in manifest and the questions asked of it;
- `bundle_format`: the format IPC bundles travel in, with its round-trip law;
- `runtime_deps`, `runtime`, `artifacts`: build-time checks of run-time
  dependencies and the run-time shim's decisions;
- `link`, `backend`: the link driver's decisions, the pre-link check, and backend
  selection;
- `pipeline`: parse, resolve and lower in one step.

`app/` is the `calcc` program around it: the command line, file and process I/O,
the interpreter and the Cranelift backend (both floating point), and the linker
invocation.
