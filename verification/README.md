# osm_changesets

A feed that follows the minutely OpenStreetMap replication stream and writes a
page for every changeset that touches one of the followed regions of
Montenegro.

- `src/` is the verified library (Verus):
  - `text.rs`: decimal notation and parsing of integers, Unicode trimming;
  - `replication.rs`: the replication feed's addresses, its state file, the
    progress file, unpacking a diff (flate2);
  - `changesets.rs`: the changesets a diff touches (xml-rs), request
    batches, page titles, file names and front matter;
  - `polygon.rs`: chaining the ways of a boundary into rings, with its laws;
  - `regions.rs`: the followed regions, their Overpass queries and the age
    of the cached outlines;
  - `model.rs`: the plain data the logic reads.
- `app/main.rs` downloads, reads and writes files, (de)serialises with serde,
  and does the floating-point geometry with geo.
- `tests/` runs the library on concrete values.
