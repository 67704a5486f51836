# snake_ai

A Snake game and the whole-number side of a neuroevolution trainer for it,
written in Verus.

- `src/grid.rs`: the board, the four moves, the eight sensor rays, and the free cells of the board.
- `src/snake_env.rs`: the game (`SnakeEnv`): starting, placing food, moving, and what the snake senses (`Observation`), with the state invariant and the laws of the game.
- `src/evolution.rs`: the food list of a generation, crossover of two parameter vectors, stepping a batch of games, and batch summaries.
- `src/checkpoint.rs`: the little-endian byte format of saved parameters.
- `src/random.rs`: the calls into `rand`.
- `app/`: the command-line trainer and viewer: the floating-point network, fitness and mutation, rayon evaluation, macroquad drawing, and file I/O.

The trainer evaluates on the CPU only (rayon). The GPU evaluation path of the
original design (wgpu and a WGSL compute shader) is left out, as its shader
source is not available.
