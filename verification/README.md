# dusk_cdf

Circuit description format (CDF) for PLONK circuits, verified with Verus.

A circuit description is a dense linear encoding of the witnesses and constraints of a
circuit: a preamble with their counts and the configuration, every witness, every constraint,
then a source cache that maps each item to the source code that produced it. Every element
has a serialized length that depends on the configuration alone, so an item is found by its
index in constant time.

- `src/` is the verified library: the elements and their encodings, the preamble and its
  offsets, the encoder and the decoder of the file, the source cache, the breakpoints and the
  stepping debugger over a file, and the protocol types of the debugger. The `plonk` module
  holds the first form of the format, where each item keeps its source path inline.
- `tests/` runs the library on concrete values.
- `app/` is the debug adapter protocol server: file access, the network service, and the
  JSON form of the protocol messages.
