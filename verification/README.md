# brainfuck

A Brainfuck toolchain verified with Verus.

- `src/bytecode.rs`: the instruction tree (`ByteCodeObject`) and its model, a
  sequence of `Op`.
- `src/parse.rs`: from program text to instructions (`unoptimized_new`, `new`),
  with the bracket matching it rests on.
- `src/optimize.rs`: the optimisation passes, each stated as a function on the
  model, and `optimize`, which runs them in order.
- `src/interpreter.rs`: the interpreter, a machine that runs one instruction per
  call of `step` and hands reads and writes to its caller.
- `src/semantics.rs`: what running a program means, with a fuel bound.
- `src/laws.rs`: what each pass, and the whole optimiser, keeps of that meaning.
- `src/simulation.rs`: the interpreter, driven step by step, does what the
  semantics says, and only that.
- `app/main.rs`: the command line program: reads the file or the `-c` text,
  optimises unless `--no-optimize`, and runs the program on standard input and
  output.
