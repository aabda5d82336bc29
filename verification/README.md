# retris

A falling-block puzzle game for the terminal, written as a verified library
and a thin terminal front end.

- `src/` is the library, verified with Verus: the piece table and rotation
  (`shape`), the pieces (`piece`), the well and its row clearing (`board`),
  the game steps and scoring (`game`), the box-drawing canvas (`frame`), the
  screen layout and picture (`screen`), text helpers (`text`), the key and
  timer decisions (`control`) and the decoding of terminal key sequences
  (`keys`).
- `app/` runs the game: raw terminal mode, drawing, the key loop and the
  timer thread, and a single-key reader on a termios terminal.
- `tests/` exercises the library on concrete games.

Keys: arrows move and turn the piece, space pauses and resumes (and starts a
new game once one is over), `q` quits.
