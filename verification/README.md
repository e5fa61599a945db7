# orienteering

Graphs and routes for orienteering experiments, with the graph logic proved in Verus.

## Layout

- `src/` is the verified library.
  - `graph/`: the adjacency-matrix graph (`matrix_graph.rs`), the graph keyed by
    geographic points (`geo.rs`), the `GenericWeightedGraph` trait they both implement
    (`weighted.rs`), the grid generator (`generate/grid.rs`, whose weight generators may keep
    a record of what they handed out), OpenStreetMap import
    (`import/pbf.rs` frames and decodes PBF data, with the protocol-buffer parsing and
    decompression left to `protobuf` and `osmpbfreader`; `import/osm.rs` contracts the road
    network), and laws
    that span several operations (`laws.rs`). `counting.rs` holds the spec functions that count
    and list the edges of a matrix.
  - `metaheuristic/`: routes (`solution.rs`), route lengths (`length.rs`) and the
    problem description (`problem.rs`).
  - `util/`: integer bounds, small numeric traits, and the scaler that maps
    coordinates into the unit range (`scale.rs`).
  - `geo.rs`: points stored as micro-degrees.
  - `experiment_config.rs`: experiment settings and the seeding of unseeded runs.
  - `rng.rs`: seeds drawn from the operating system.
- `app/` is the program around the library: reading and writing files, map import,
  the floating-point metaheuristics (ant colony, two-swap, random search), and the
  experiment runner.
- `tests/` exercises the library through its public interface.
