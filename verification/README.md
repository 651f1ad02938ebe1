# Instance manager

The manager of the subgraph instances of an indexing node, written in Verus.

A subgraph is started when it is assigned to the node and stopped when it is unassigned.
While it runs, it takes blocks from a block stream and hands their triggers to its handlers.
Data sources that handlers create on the way are set up within the same block, and the block
stream is then built anew so that it covers them.

- `src/` holds the decisions, each with its contract. `manager`, `start`, `run` and `block`
  are the procedures, from the outermost to the innermost; `trigger`, `data_source` and
  `proof_of_indexing` are the pieces of a block. What holds of every block and of every run
  is proved in `block_laws` and `run_laws`.
- `app/` performs the actions: it waits for events, calls the services of the node behind the
  trait `Node`, and feeds the sensors.
- `tests/` runs the procedures on concrete blocks.
