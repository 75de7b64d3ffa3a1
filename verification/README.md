# ducki

Study flashcards from the terminal. Cards are scheduled with the Free Spaced
Repetition Scheduler (FSRS).

## Layout

- `src/` is the verified library (Verus):
  - `config.rs`: the list of known decks.
  - `deck.rs`: decks and their cards (find, add, edit, remove, import).
  - `progress.rs`, `log.rs`: the scheduler's memory of each card, the review
    log, and undoing the last review.
  - `study.rs`: preparing a session (which cards are due, which are new),
    recording a review, and the order in which cards are asked.
  - `schedule.rs`, `time.rs`: ratings, the scheduler's per-card memory and
    review records, and instants, all as plain values.
  - `commands.rs`, `commands/decks.rs`: the command line's values and the
    choices commands make before touching files.
  - `paths.rs`: file locations inside a deck directory.
- `app/` is the program around it: argument parsing (clap), the terminal
  prompts (inquire) and full-screen interface (cursive), the JSON and CSV
  files, and the FSRS computation itself, which works in floating point.
- `tests/` exercises the library on concrete values.
