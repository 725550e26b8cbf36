# qlang

An interpreter for a small language of classical bitstring functions and
quantum circuits, with its logic verified in Verus.

A program declares bitstrings (`bits`), classical functions over them
(`function`), oracles `U_f` built from those functions (`oracle`) and circuits
(`circuit`) of up to 16 qubits, then runs or measures the circuits through
method calls such as `c.measure(shots=3);`.

## Layout

- `src/` — the verified library.
  - `interpreter/lexer` — source bytes to tokens; `lex_from` is the meaning
    of the scanner, and every token list it produces ends with an
    end-of-file token.
  - `interpreter/parser` — tokens to syntax trees; `grammar.rs` states the
    grammar as spec functions that the recursive-descent parser follows,
    `grammar_halts.rs` proves that tokens ending with an end-of-file token
    never send it past the last token, and `grammar_frame.rs` that nothing
    after an end-of-file token is read.
  - `interpreter/type_checker` — the static checker, which checks statements
    in order and stops at the first failure (a type error, or a count of
    qubits past `usize::MAX` where the count is made); `soundness.rs` proves
    that an accepted program in which every call names its function
    (`f(x)`, not `(f)(x)`) never fails evaluation with a type error. A call
    whose callee is a parenthesised or computed expression is outside that
    proof: the checker accepts `(f)(x)`, and evaluation then fails with a
    type mismatch.
  - `interpreter/evaluator` — the evaluator as a step function: it binds
    declarations and hands circuit runs over as actions.
  - `engine` — the integer side of the quantum register: gate arities and
    names, the permutation gates (X, CNOT, Toffoli, `U_f`, each its own
    inverse), initial patterns, targets and measured bits.
- `app/` — the program around the library: reading the file, the complex
  amplitudes and the gates that compute on them, random measurement, and
  printing.
- `tests/` — tests of the library on concrete programs and states.
