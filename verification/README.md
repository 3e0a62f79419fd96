# cel

A verified runtime for CEL, the Common Expression Language.

The library evaluates parsed expressions. What an expression comes to is stated in
`src/semantics.rs`, over the values of `src/model.rs`, and the evaluator in
`src/resolve.rs` is proved to compute it. Functions, struct types and the arithmetic
of doubles belong to the program around the library: an evaluation that needs one
stops with a request, and is run again with the reply.

| Part | What it holds |
| --- | --- |
| `model`, `semantics` | the mathematical values, the operators on them, and evaluation |
| `value`, `list`, `map`, `key`, `column` | public values and the buffers behind them |
| `ops`, `compare`, `access`, `from` | operators, equality and order, containers, conversions |
| `ast`, `context`, `resolve` | expressions, names in scope, and the evaluator |
| `time`, `double`, `text` | timestamps and durations, doubles by their bits, text |
| `runtime` | leaves on a segmented heap, their operators, and conversions from and to values |
| `laws` | what holds of the language as a whole |

`app/` is what surrounds the library in a program: the heap of each thread, the
host's objects, and conversions from and to the types of other crates.
