# Chess puzzle solver

`cps` tests chess engines by puzzles: it reads puzzles from a database in the Lichess
format, has one or more UCI engines search each of them to a fixed depth, and counts how
many they solve.

`src/` is a library verified with Verus. It decides everything and touches nothing: it
reads command lines, database rows and the lines that an engine writes, and says which
commands to send and what to print. `app/` is the program around it, with the files, the
processes and the threads. `tests/` runs the library on examples.

| Module | Contents |
| --- | --- |
| `settings` | the command line |
| `puzzle` | database rows, and the lines about unsolved puzzles |
| `source` | which rows are skipped and which are handed out |
| `uci` | the commands and answers of an engine |
| `session` | the start of an engine and the trial of a puzzle, step by step |
| `progress` | the counts, the list of unsolved puzzles, and what is shown of them |
| `banner` | what is printed before the run |
| `rounding` | percentages and seconds with one decimal, as double precision gives them |
| `number`, `text` | decimal notation, and operations on text |
| `error` | errors and their messages |
| `laws` | what holds of the library as a whole, proved |

A puzzle counts as solved when the engine plays the move with which the recorded solution
starts, or any other move that mates. With `--show-failed` the unsolved puzzles are listed
after the run.
