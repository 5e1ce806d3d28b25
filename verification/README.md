# stellar_notes

The compiler of a notes repository organised for stellar, with its logic
verified by Verus.

- `src/` is the verified library: the rules between the command-line flags,
  the queries that pick source files (substring, case-blind, regex, content
  filter), the plan of compile jobs for changed files (each document
  compiled once), the reading of `git diff --name-status`, the ids of
  course and universe files, the run's counters and summary, and the
  pointer and camera decisions of the interactive snippets.
- `app/` is the program around it: argument parsing, the file system, the
  external tools (`git`, `tectonic`, `typst`, `python`) and the database
  import, and two of the interactive snippets (secant, complex plane),
  drawn with nannou.
- `tests/` runs the library on concrete inputs.
