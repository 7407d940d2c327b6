# brokkr

A verified library of the decisions behind `brokkr`, a command line for developing
and measuring a family of projects: what is run, how it is measured, what is
recorded, and what is said about it.

- `src/` holds the logic, each function with a contract that Verus checks. Calls
  into other crates stand behind small wrappers whose contracts say what is
  relied on.
- `tests/` holds the tests.
- `app/` holds the program around the library: the command line, files, child
  processes, the lock file and the databases.

The main parts of `src/`:

- `lockfile`, `hold` – the one lock of the machine, its record, and the capability
  that children carry.
- `harness`, `measure`, `hotpath_fmt`, `db` – measurements: runs, spreads, reported
  values, profiles and their comparison.
- `number`, `numeral`, `text`, `table`, `path` – double precision with proved
  rounding, decimal text, and the texts and tables that commands print.
- `history`, `invalidate` – statements of the databases and what is shown of them.
- `lex`, `manifest`, `header` – checks of source files.
- `man` – the manual and the sections of its articles.
- `nidhogg`, `litehtml`, `mogwai` – the commands of single projects.
- `commands` – options, timing, cleaning, and which command may run where.
