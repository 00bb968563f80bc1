# space_invaders

A terminal Space Invaders game whose rules are proved with Verus.

- `src/` is the verified library:
  - `config`: the settings, decimal numbers, and how the text of
    `config.ini` sets them (its INI syntax is read by the `rust-ini` crate);
  - `game`: the objects of the game, a new game's layout, the end of a game,
    the frame delay;
  - `missiles`: one frame's pass over the missiles (collisions, hits, the
    score and the lives);
  - `aliens`: the aliens' step, their turn at the screen's edge, their
    missiles;
  - `input`: keys, the title screen, the player's moves and shots;
  - `frame`: the framebuffer and the drawing of a game;
  - `text`, `banner`: the title banner, split into lines and centred;
  - `render`: the terminal commands that show a framebuffer, with a model of
    the terminal and the proof that the commands show every pixel of every
    row but the screen's last.
- `app/` is the program: reading the configuration file, the terminal, random
  numbers, the float firing chance, and the frame loop.
- `tests/` runs the library on concrete games.
