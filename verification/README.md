# togail

The engine of a falling-block puzzle game, verified with Verus, and a small window front end.

- `src/shape.rs`: the seven pieces, their cells in each orientation, quarter turns.
- `src/board.rs`: the playing field as a mathematical model (`BoardModel`), the rules for
  spawning, moving, turning with sideways offsets, dropping, merging and clearing rows, and the
  board operations proved against that model.
- `src/board_laws.rs`: what the board operations keep and how they relate.
- `src/random.rs`: the xorshift64 piece generator.
- `src/game.rs`: the game as a state machine over `GameModel`; `Game::tick` is proved to take
  exactly one step of it.
- `src/game_laws.rs`: what ticks keep and promise across ticks.
- `src/display.rs`: the board as a pixel buffer, the quit request, the key bindings.
- `app/`: the window, the keyboard and the frame loop (not verified).
