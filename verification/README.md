# shellsense

Shell-history autocomplete: it learns from the commands you run and suggests
the next one (sequence, prefix, frequency, recency and directory signals, plus
typo correction).

Layout:

- `src/` is the library, with machine-checked proofs. It holds the parsers of the zsh,
  bash and fish history formats, the privacy filter, the text and number
  routines they rest on, the typo-correction rules (transpositions, keyboard
  adjacency), the ranking's filters and environment boosts, the table updates
  that recording a command makes (which rows of which tables change), the
  escaped `LIKE` patterns and the batched recency query, the daemon's
  request handling and the dashboard's key handling. Each public function
  states what it returns in its `ensures`; the `lemma_*` proof functions state
  laws that span calls.
- `app/` is the program around it: the command line, the SQLite store (its
  INSERT, UPDATE and DELETE statements carry out the library's table
  updates), the Unix-socket daemon, the terminal dashboard and the
  floating-point scoring.
- `tests/` runs the library on concrete values.

The data directory is `$SHELLSENSE_DATA_DIR` when set, else `~/.shellsense`.

`shellsense init <shell>` prints the shell integration script
`shellsense.<shell>`, read from a `shell/` directory beside the executable.
