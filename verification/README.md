# my_game

A turn-based artillery game on a tile map, split in two:

- `src/` is the verified library (Verus): skill loadouts and shot patterns
  (`skills`), per-frame input (`controls`), the tile map read from CSV and
  its grid queries (`map`), turn order, game-over and end-of-turn decisions
  and the launch options (`game`), the network messages and the host's
  table of remote input slots (`net`), the remote controller's session and
  command line (`controller`), and the text handling they share (`text`).
- `app/` is the program around it: the macroquad window and game loop,
  drawing, keyboard and mouse, the floating-point physics of players and
  projectiles, the UDP sockets and the bincode encoding of the messages.

`tests/` exercises the library on concrete values.

The program is the game; started under the name `controller` (a copy of, or
link to, the executable), it is the remote controller that joins a game
listening with `--listen <addr>`.
