# Paws games

Small terminal games — Tetris, Snake, 2048, Breakout, Space Invaders, Dog Jump, a
platform climber, pinball, a clicker, knowledge cards and poems — whose rules are
written in Verus and proved against their contracts.

- `src/` is the library: each game's state, its invariant, and every rule of play as a
  function with `requires`/`ensures`, together with the laws the games keep (a slide in
  2048 keeps the sum of the tiles, clearing full rows twice changes nothing, a tick of
  Space Invaders never mends a shield, a shuffle keeps every card, ...).
- `app/` is the program around it: the terminal, the clock, drawing, and the motion of
  balls and jumpers, which is real-valued. Its first argument names the game to run.
- `tests/` runs the library on concrete cases.
