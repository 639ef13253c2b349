# rustc_watt

WASI host support for procedural macros that run as WebAssembly modules, verified with Verus.

A procedural macro is compiled to a module that imports a small part of WASI preview 1 and a
token stream interface. This library decides what such a guest can observe:

- which imports and instructions a module may have, and what a module makes use of
  (`module_support`, `import`, `import_wasi_p1`, `import_wasi_p2_core`, `runtime`);
- what each host function does to the guest's stack and memory (`import_wasi_p1`, `sym`);
- what a guest is given when it starts (`policy`) and what it has at any time (`wasi_ctx`);
- which paths a guest may open and what it is told of them (`path`, `resolve`, `files`,
  `readdir`);
- in which order the functions of a macro are called (`interpret`);
- what holds of a guest through all of its calls (`guarantees`).

The library performs no input or output. Where the host has to act, a function hands out a
request, and a second function takes the host's answer. The contracts say which request is made
and what becomes of every answer. Random bytes are those of keyed hashes of a counter; which
numbers the hashes are, no contract says.

A path is a list of names, of one of two kinds of host: one where only slashes mean anything in a
path, such as a Unix or WASI system, or a Windows host, where a backslash separates names too and a
path can have a prefix. What a guest names is read by the kind of the directory that it is named
in. An open file is a number.

- `src/` is the library. It is verified, and rests on a few stated facts about the standard
  library (in `text` and `random`).
- `app/` performs the requests: files, clocks, the environment, and the calls of a WebAssembly
  engine, which is given by a trait.
- `tests/` runs the library on concrete values.
