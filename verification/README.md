# cito

A fast, pytest-compatible test collector and runner. `cito` reads Python test
files with the Ruff parser, works out the node IDs that pytest would collect, and
hands them to pytest in chunks that run in parallel.

## Layout

- `src/` is the library, verified with Verus: each function states in its contract
  what it returns, and the proofs hold for every input that meets the function's
  preconditions. Most functions have none; the others ask for such things as totals
  that fit their counters, a source text that the parser can index, or two lists of
  the same length. What the proofs rest on without proof are the small wrappers
  around other crates and the standard library: the Ruff parser and its syntax tree
  in `python`, the TOML parser in `document`, `globset` in `glob`, lower case and
  quoting of strings in `keyword`, and `String::push` in `text`. Their doc comments
  say what is taken on trust.
- `tests/` runs the library with the real outside crates.
- `app/` is the command line program: arguments, files, subprocesses, sockets and
  the file watcher around the library.

## The library

| modules | what they hold |
|---|---|
| `text`, `path`, `table`, `names`, `facts`, `graph` | strings, paths, dictionaries, facts about the file system, reachability |
| `syntax`, `python`, `document`, `glob` | what is read of Python, TOML and glob patterns, and the parsers behind it |
| `config`, `options`, `discover` | pytest's configuration and how it is found |
| `params`, `guards`, `defs`, `scan`, `model` | from a syntax tree to what collection knows of a module |
| `resolve`, `symbols`, `inherit`, `fixtures` | imports, base classes and fixtures across modules |
| `emit`, `collector` | node IDs |
| `keyword`, `commands`, `schedule`, `changes`, `impact` | which tests run, and in which order |
| `runner`, `daemon` | chunks, reports, and the warm-worker daemon |

Nothing in the library reads a file. A function that needs to know more, such as
the module at a path or whether an interpreter can import a name, returns what it
has to be told; the program looks it up and calls again. `law_collection_stays` in
`collector` shows that what is collected, once it can be told, does not depend on
anything that was not asked for.

An ID with a bracketed suffix is only made where the parameters are certain.
Everything else falls back to the bare name of the test, which pytest accepts as a
selector for all of its parametrizations.
