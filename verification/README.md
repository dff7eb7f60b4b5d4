# norma

A simulator for Norma machines: register machines whose registers hold
natural numbers of any size, programmed in a small language of labelled
instructions (`inc`, `dec`, `zero`) with operation and test macros.

The library is written in Verus. Every function in `src/` carries a contract,
and Verus proves each of them but for the calls into `num-bigint`, `indexmap`
and a few functions of std: those stand in small functions marked
`#[verifier::external_body]`, whose contracts are believed, not proved (their
doc comments say what each claims), beside two declarations of `indexmap`'s
types in `src/collections.rs`.

- `src/natural.rs`: arbitrary-precision naturals (arithmetic by `num-bigint`).
- `src/machine.rs`: the bank of registers and its operations, modelled as a
  map from register names to naturals.
- `src/interpreter.rs`, `src/interpreter/program.rs`: compiled programs and
  their step-by-step execution, specified by a small-step semantics
  (`step`, `run_up_to`, `program_output`).
- `src/compiler/`: source text to program.
  - `lexer.rs`: tokens, specified by `lex`;
  - `parser.rs`: the syntax tree, specified by the grammar in
    `parser/grammar.rs` (`p_program`), including its error recovery;
  - `expansor.rs`: macro expansion, specified in `expansor/compiled.rs`
    (`expansion_of`, `program_valid`, `no_recursion`), with the errors it
    raises specified in order in `expansor/order.rs` (`expansion_errors`)
    and, body by body, in `expansor/errors.rs` (`program_errors`).
- `tests/`: tests of the library.
- `app/`: the WebAssembly interface (JSON over `wasm-bindgen`).
