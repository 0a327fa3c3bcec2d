# sip

Runs WebAssembly modules as software isolated processes.

`src/` is the library, verified with Verus:

- `entities` describes what a module declares, `module` what is kept of a translated one;
- `standalone` is the runtime that a translator fills: signatures, functions, globals, tables,
  memories, and what the body being translated has imported;
- `globals` lays the global variables out and initializes them;
- `names` builds the names of functions, `bytes` handles numbers in memory and buffers,
  `func_indices` maps imported functions to their positions;
- `target` says what the program was built for: the byte order of the host, and whether callers
  are held to the assertions of a debug build;
- `execute` links compiled code and finds the start function;
- `session` decides the steps of a run, from translation to the return of the called function;
- `guest` holds the functions of a small guest module, `logging` the texts that loggers use.

`app/` is the program around it: arguments, files, the dynamic library with the host's functions,
the code generator, memory protection and the jump into compiled code.
