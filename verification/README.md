# crowd2x

The core of a 2D crowd simulation, written in Verus: every decision made on
whole cells, ids and queues is a verified function with a contract.

## Layout

- `src/` — the verified library.
  - `map`, `occupancy`, `moves`: the grid, who stands where, and whether a
    step is granted.
  - `uid`, `entities`, `homes`: entity ids, the slot table that holds
    entities, and who owns which bed.
  - `path`, `walker`: A* over the grid — proved to return a route no longer
    than any walk through cells the predicate does not refuse, and to give
    up only when every such walk is cut by a refused cell or the budget ran
    out, never asking about the cell it starts from — and the route a walker
    follows and repairs round the crowd.
  - `feature`: the index of fridges and toilets, and where to stand to use
    one.
  - `brain`: goals, their back-off, the task queue, and the mind that hands
    the top goal over and turns tasks into orders. A wanderer's cell is the
    first of its rolls that lands somewhere it can stand. A person's mind wanders,
    eats, drinks, uses the toilet, has a go on the nearest computer and
    sleeps in a bed — its own, or any free one once critically tired; where
    the computers and beds are is handed to it with what it senses.
  - `biology`, `item`, `inventory`, `identity`, `rng`, `log`: switches for
    bodily processes, carried items, random names, seeded randomness, and the
    bounded event log.
  - `testing`: putting a prop in a cell by hand, as the editor would.
  - `nav`, `keyboard`, `state`, `view`: menu focus movement, the name field
    and on-screen keyboard, the screens and the names they answer to, and
    cell rectangles.
- `tests/` — tests of the library's behaviour on concrete values.
- `app/` — the parts that work on floating-point quantities (positions,
  seconds, levels of need and the routines that weigh them, boredom and
  tiredness among them) and the tick that drives everything.

Public proof functions named `lemma_*` state the library's laws: properties
that hold over every input or across several calls.
