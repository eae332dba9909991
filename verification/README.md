# helix_db

The verified core of a graph database and its tooling, written in Verus.

`src/` is the library. Verus proves every function in it against its
contract, except the few `#[verifier::external_body]` wrappers around
calls into std and the `regex` crate, whose contracts are trusted and
say in their doc comments what they claim of the outside code.

- `storage_keys`: the byte layout of node, edge and adjacency keys and of
  adjacency entries (big-endian ids, label hashes), with round-trip and
  layout lemmas.
- `indexing`: names and error messages of secondary indices.
- `value`, `items`: property values, nodes, edges and traversal values, with
  property lookup and update.
- `graph`: the graph store (nodes, edges, secondary indices, label versions,
  id counter) and its view, with the laws of the edge indices.
- `traversal`, `traversal_mut`: index lookups (`n_from_index`,
  `n_from_index_in`, `e_from_index`), writing edges (`add_edge`), updates,
  drops and adjacency steps.
- `batch_types`, `batch_props`, `batch_apply`: applying a batch of file,
  symbol, edge and site mutations as one transaction, with the stable-id
  cache of a batch and the effect of the whole batch stated over the store.
- `analyzer`: the query analyzer's checks of parameters, scopes and return
  values, and the return structures it derives.
- `cli`: the decisions of the command-line tool (metrics settings, email
  check, choosing and stopping an instance, index rebuild summary).

`app/` is the command-line program around the library: argument handling,
files, terminal input, container commands and JSON.

`tests/` runs the library on concrete values.
