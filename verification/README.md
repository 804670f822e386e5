# ggg

A download manager for the terminal, with its logic verified by Verus.

- `src/` is the library: queues and folders, attempts at downloads and their
  retries, settings, file names, key bindings, script handlers, the command line
  and the messages of helper programs. Every function states what it does in
  `requires` and `ensures` and is proved.
- `app/` is the program around it: files, requests to servers, threads, the
  JavaScript runtime and the command line. It performs what the library decides
  and hands back what came of it.
- `tests/` runs the library on concrete values.

Where a result depends on an outside crate, a small function of the library makes
the call, and its doc comment says what is taken on trust. Where it depends on
the time or on chance, a function that takes the moment or the number as an
argument says exactly what follows from it.
