# Lithe

Lithe is a small surface language that compiles to FMC terms and runs them on a Krivine
machine. This crate is the compiler and the machine, written in Verus. Verus proves the
contract of every function of the library except the wrappers around `String::push`
(`src/text.rs`) and around `RandomState::new` and `BuildHasher::hash_one`
(`src/machines/random.rs`), whose contracts are trusted. The library also relies on the
specifications vstd gives to `std` (strings, vectors, options).

## Layout

- `src/fmc_core`: terms, operations, choices, locations and primitives; expanding
  operations, substitution, renaming, reduction and printing.
- `src/interpreter`: the lexer, the parser (`grammar.rs` states the grammar as spec
  functions over token sequences, `parser.rs` reads tokens against it), and the
  interpreter that compiles and runs programs. `fmc_syntax.rs` proves that a printed raw
  FMC term, embedded in a program as `\ text \;`, compiles back to the term.
- `src/machines`: the Krivine machine (`semantics.rs` states one transition as a spec
  function, `krivine_machine.rs` performs it), its stores, the reading of input lines and
  the layout of traces.
- `src/text.rs`: decimal text and the string operations the library uses.
- `tests`: tests of each part and of whole programs.
- `app/main.rs`: the command line: reads the program file, runs the machine step by step,
  supplies input lines and random choices when the machine asks for them, and prints what
  the program writes.

## Command line

```text
fmc_interpreter [--krivine] [--trace] [--optimise] [--rnd] <PATH>
```

Programs compiled for the stack machine run on the Krivine machine. `--rnd` puts the
standard random-number library before the program: `rnd_bool()`, a fair random boolean,
and `rnd_int(low, high)`, an integer from `low` to `high` inclusive, drawn by rejection
sampling over random bits (`low` itself when `high <= low`). `Interpreter::run` and
`interpret` draw the random bits themselves; `run_supplied` and `interpret_supplied` take
them in advance.