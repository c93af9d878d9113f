# pentagram

The core of a deterministic world simulation. Five elements stand in a ring;
every element has a plant race and an animal race. Bodies wander, flee, hunt,
graze, feed, breed, die, and move material about on a grid. A world is a pure
function of a seed and a log of commands.

Everything under `src/` is verified with Verus. What a function does is in its
contract, over a mathematical model of its types (`WorldV`, `TerrainV`,
`EntityV` and so on); what holds of the library as a whole is stated by the
public proof functions whose names begin with `law_`.

## What is proved

- One tick conserves material exactly and leaves the tables alone
  (`tick::law_step`). Of each single
  element, only recipes and meals change the total
  (`ledger::law_only_recipes_and_meals_transmute`).
- A run is determined by seed, size, population and log, can be resumed from
  any tick, and verifying a trace finds the first tick that differs (`replay`).
- A log read back from its bytes is the log that was written, and no prefix of
  them is read as a shorter one; a log that holds a `Pickup`, for which the byte
  format has no place, is refused. The order in which commands arrive does not
  matter (`input`).
- Nothing acts at a distance: diffusion carries material one cell per terrain
  tick and never more than its cap per edge (`diffusion`).
- Rates are capped and average out at nominal (`governor`); what lies on the
  ground goes back into it no faster than its band allows (`ground`).
- A body that lives through `n` ticks is `n` ticks older and short of the span it
  was born with, and its strength stays on its scale; a plant, which never eats,
  starves (`fate`).
- The phases see every pair of bodies that is close enough to matter, although
  they look only at a few cells (`spatial`, `collisions`, `feeding`).

## Layout

| | |
|---|---|
| `fx`, `tile`, `rand`, `hash`, `sums`, `order`, `text`, `numeral` | numbers, draws, digests, sums, sorting, digits written and read |
| `element`, `race`, `entity`, `governor` | the ring, the race table, bodies, rate bands |
| `diffusion`, `terrain`, `apportion`, `climate`, `spatial` | the grid and what happens on it |
| `ecology`, `behavior`, `input` | tuning tables, steering, the command log |
| `world`, `recipes`, `commands`, `aging`, `movement`, `collisions`, `feeding`, `flora`, `ground`, `tick` | the world and the phases of its tick, in order |
| `ledger`, `replay`, `fate` | the books by element, recording and verifying runs, what becomes of a body |
| `tuning`, `table`, `keys`, `term`, `console`, `atlas`, `frame` | knobs, the written table, and the logic of the live view |

`app/` holds the programs: the terminal and window clients and the batch
commands. They do the reading, drawing and writing; the library decides.

One item is believed without proof: `table::quote`, which calls the standard
library's debug formatting of a string. Its contract gives the result a name
and says no more.
