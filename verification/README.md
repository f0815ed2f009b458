# ecosim

An evolutionary predator/prey simulation. Animals with small neural-network
brains roam a toroidal world, graze, hunt, scavenge, reproduce and starve;
the longest-lived animals of each family are remembered in a "zoo" from
which new animals can be drawn.

The crate is split in two:

- `src/` is a library verified with Verus. It holds the simulation's
  discrete rules, each with a contract:
  - `diet`: what each diet eats, and a diet drawn at random;
  - `feeding`: who may feed on whom in a frame, with the duel rule that
    keeps two animals from eating each other at once;
  - `zoo`: the zoo rules (one representative per family, at most six per
    diet, longest-lived first), the curated `Zoo`, and the laws that the
    rules produce a curated listing and are idempotent;
  - `population`: the census by diet and by family, the tracker that
    reports population changes, and the on-screen status text;
  - `logging`: the layout of console, text-file and CSV log lines;
  - `config`: numeric settings and the random seed read from text, by the
    rule `str::parse` follows for unsigned integers;
  - `frame`: the saturating frame counter;
  - `text`, `rng`: decimal notation and the random draws the library makes.
- `app/` is the Bevy program around it: rendering, input, files, the
  environment, and everything computed in floating point (movement,
  energy, perception and the neural network).
