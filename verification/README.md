# sham

Shared, hierarchical, cross-project memory for agents.

A project's memory is one YAML file of decision units (`.memory/memory.yaml`),
whose `parent` ids form a tree. The files are the source of truth. A SQLite
cache serves the queries and can always be rebuilt from them.

- `src/` is the library, written in Verus. Contracts state what each function
  returns; the laws that relate functions (what a pass over the sources leaves
  in the cache, what an added node keeps true, what a registration is found
  as) are public proof functions.
- `app/` is the command line program: argument parsing, YAML files and the
  database connection.
- `tests/` runs the library, with a real SQLite database where statements are
  concerned.
