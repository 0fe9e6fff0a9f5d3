# tui_chess

A two-player chess board played with the mouse in a terminal.

- `src/` is the verified library: the pieces and their text art
  (`pieces`), the written form of moves (`notation`), move generation
  (`moves`), the board layout and click search (`board`), the click-by-click
  game logic (`game`), and proved properties of moves (`laws`) and of the
  game (`game_laws`).
- `app/main.rs` draws the board with ratatui and turns terminal events into
  the library's `UiEvent`.
- `tests/` runs the library on concrete positions.
