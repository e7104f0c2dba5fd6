# rython

A loader and bootstrap virtual machine for CPython 3.12 bytecode, written in
Verus: the `.pyc` header check, the `marshal` reader, the wordcode decoder and
the instruction semantics are verified against specifications stated over the
mathematical content of values.

## Layout

- `src/pyc.rs`, `src/marshal_format.rs`, `src/marshal_reader.rs`, `src/text.rs`,
  `src/float_text.rs`: the `.pyc` header and the CPython 3.12 `marshal`
  format, specified as a grammar on bytes (`spec_parse_marshal`) and read by
  a verified parser with resource limits. `src/marshal_flag.rs` proves that
  setting `FLAG_REF` on a root tag changes nothing in a stream without
  reference objects.
- `src/bytecode.rs`: opcodes and the wordcode decoder (`EXTENDED_ARG` folding,
  instruction layout lemmas).
- `src/value.rs`, `src/equality.rs`, `src/ieee.rs`: VM values, Python
  equality and truthiness; floats are held as binary64 bits, compared and
  converted from integers with integer arithmetic.
- `src/arith.rs`, `src/ops.rs`, `src/operators.rs`: what the operators
  compute (specifications in `ops.rs`, code in `operators.rs`).
- `src/step.rs`, `src/frame.rs`, `src/vm.rs`: the meaning of one instruction
  (`step_spec`), the frame that runs it, and the global namespace.
- `src/message.rs`, `src/decimal.rs`: the text of every error.
- `src/render.rs`: the text of values as results and as `print` writes
  them, with floats left as slots for the host.
- `app/`: the command-line program. It compiles a script with CPython,
  drives a frame, carries out the floating-point operations the VM hands
  out (`Step::Float`) and writes floats into rendered text.

The VM never computes with floats itself: a step that needs a float result
answers `Step::Float` with the operation and its binary64 operands, and the
host pushes the result back with `Frame::push_float`.
