# lumen

The verified core of a JavaScript engine. Everything in `src/` is proved with Verus: the code
states in `requires` and `ensures` clauses what it does, over mathematical models of its data.

- `bytecode`: chunks and their saved form, name paths, switch tables, tail calls, call positions,
  legacy reflection, prepared calls; `bytecode::jit` is the optimizing tier's state, its entries and
  exits, and what its code does to memory.
- `interpreter`: call frames and flags, sources and line tables, stack traces and their texts, class
  fields, coroutine bodies, arrays.
- `embed_convert`: ops, conversions between host values and script values, byte views, classes,
  promises of the host.
- `eval`: promise reactions and jobs, iteration and property fast paths.
- `engine` and `runs`: a realm's settings, and what runs of scripts, modules and blobs come to.
- `lstr`, `lstr_compact`: shared strings, views of them, and compaction.
- `fastalloc`: the size-class allocator's lists and counters.
- `cldr_pack`, `num`, `object`, `tables`, `text`, `value`, `ast`: packed tables, numbers, objects, keyed tables, texts,
  values and the syntax that decisions look at.

Objects, strings, functions and sources are identified by numbers; what only the parser, the
evaluator, the collector or the code generator can tell is handed to a function as an argument, and
what they are to do is handed back as a value.

`app/` holds what is left around the core: environment switches, clocks, raw memory, and the loop
that drives a language implementation. `tests/` runs the library.
