# pinz

A corkboard for the terminal: notes pinned on worlds you pan and zoom, kept as
markdown files in a git repository of their own.

The library in `src/` is written in Verus: contracts state what functions return
or change, and Verus proves them. What holds of the board as a whole stands as
`law_...` proof functions beside the functions they speak of.

- `model`, `geometry`, `view`, `coord` - pins, boards, and the map between the
  world and the cells of a terminal. Positions are whole grains, 7140 to a world
  unit, which makes a cell a whole number of grains at every zoom.
- `text`, `editor`, `wrap` - text, the note editor, and how a note is broken
  into rows.
- `state`, `app` - the board as a state machine. `state` says what each key and
  gesture does to a board taken as a value; `app` does it. `laws`, `spacing`,
  `changes` - what holds of every run: history, read-only sessions, pins that
  never hide each other, ids that stay apart.
- `pinfile`, `naming`, `stamps`, `files`, `disk`, `saving`, `saving_laws`,
  `loading_laws`, `store`, `merge`, `last_world` - pins as files.
- `git`, `sync`, `pull`, `release`, `lock`, `session`, `cli`, `report`,
  `clipboard` - decisions around git, the lock file, the terminal and the
  command line. Each takes what came back so far and says what to do next.
- `theme`, `palette`, `paint`, `chrome`, `screen`, `input` - what is drawn where.

`app/` is the program: it reads keys and files, runs git, and draws. `tests/`
runs the library on concrete values.
